//! The EXIF tags that the editor reads and writes, held by `little_exif`.
//!
//! The tags live in an opaque `little_exif::metadata::Metadata`; the
//! library sees them through two maps, [`exif_texts`] and
//! [`exif_rationals`]: the value that a lookup of each tag finds.

use vstd::prelude::*;
use little_exif::exif_tag::ExifTag;
use little_exif::metadata::Metadata;
use little_exif::rational::uR64;
use crate::fields::{ExifFields, Field};
use crate::text::{
    chars_of, decimal, decimal_chars, first_two_words, string_of, trim_start, words,
};

verus! {

broadcast use vstd::string::group_string_axioms;

#[verifier::external_type_specification]
#[verifier::external_body]
pub struct ExMetadata(Metadata);

/// The text tags that the editor uses.
#[derive(PartialEq, Eq, Structural, Clone, Copy, Debug)]
pub enum TextTag {
    DateTimeOriginal,
    CreateDate,
    OffsetTimeOriginal,
    GpsLatitudeRef,
    GpsLongitudeRef,
    ImageDescription,
    Artist,
}

/// The rational tags that the editor uses.
#[derive(PartialEq, Eq, Structural, Clone, Copy, Debug)]
pub enum RationalTag {
    GpsLatitude,
    GpsLongitude,
    GpsAltitude,
}

/// The text that a lookup of each text tag finds in the metadata.
pub uninterp spec fn exif_texts(m: Metadata) -> Map<TextTag, Seq<char>>;

/// The rationals (numerator, denominator) that a lookup of each rational
/// tag finds in the metadata.
pub uninterp spec fn exif_rationals(m: Metadata) -> Map<RationalTag, Seq<(u32, u32)>>;

/// `Metadata::get_tag`: the first tag of the kind of `tag` in the
/// directories of its group, when it holds text.  Claimed: the result is
/// what [`exif_texts`] holds for `tag`.
#[verifier::external_body]
fn exif_text_tag(m: &Metadata, tag: TextTag) -> (r: Option<String>)
    ensures
        r matches Some(v) ==> exif_texts(*m).contains_key(tag) && v@ == exif_texts(*m)[tag],
        r is None ==> !exif_texts(*m).contains_key(tag),
{
    let query = match tag {
        TextTag::DateTimeOriginal => ExifTag::DateTimeOriginal(String::new()),
        TextTag::CreateDate => ExifTag::CreateDate(String::new()),
        TextTag::OffsetTimeOriginal => ExifTag::OffsetTimeOriginal(String::new()),
        TextTag::GpsLatitudeRef => ExifTag::GPSLatitudeRef(String::new()),
        TextTag::GpsLongitudeRef => ExifTag::GPSLongitudeRef(String::new()),
        TextTag::ImageDescription => ExifTag::ImageDescription(String::new()),
        TextTag::Artist => ExifTag::Artist(String::new()),
    };
    match m.get_tag(&query).next() {
        Some(ExifTag::DateTimeOriginal(v) | ExifTag::CreateDate(v) | ExifTag::OffsetTimeOriginal(v)
        | ExifTag::GPSLatitudeRef(v) | ExifTag::GPSLongitudeRef(v) | ExifTag::ImageDescription(v)
        | ExifTag::Artist(v)) => Some(v.clone()),
        _ => None,
    }
}

/// `Metadata::get_tag`: the first tag of the kind of `tag` in the
/// directories of its group, when it holds rationals.  Claimed: the result
/// is what [`exif_rationals`] holds for `tag`.
#[verifier::external_body]
fn exif_rational_tag(m: &Metadata, tag: RationalTag) -> (r: Option<Vec<(u32, u32)>>)
    ensures
        r matches Some(v) ==> exif_rationals(*m).contains_key(tag) && v@ == exif_rationals(*m)[tag],
        r is None ==> !exif_rationals(*m).contains_key(tag),
{
    let query = match tag {
        RationalTag::GpsLatitude => ExifTag::GPSLatitude(Vec::new()),
        RationalTag::GpsLongitude => ExifTag::GPSLongitude(Vec::new()),
        RationalTag::GpsAltitude => ExifTag::GPSAltitude(Vec::new()),
    };
    match m.get_tag(&query).next() {
        Some(ExifTag::GPSLatitude(v) | ExifTag::GPSLongitude(v) | ExifTag::GPSAltitude(v)) => {
            Some(v.iter().map(|r| (r.nominator, r.denominator)).collect())
        },
        _ => None,
    }
}

/// `Metadata::set_tag` with a text tag: it replaces the tag in the first
/// directory of its group, which a lookup reads first.  Claimed: a lookup
/// of `tag` then finds `v`, and of every other tag what it found before.
#[verifier::external_body]
fn exif_set_text(m: &mut Metadata, tag: TextTag, v: String)
    ensures
        exif_texts(*final(m)) == exif_texts(*old(m)).insert(tag, v@),
        exif_rationals(*final(m)) == exif_rationals(*old(m)),
{
    m.set_tag(match tag {
        TextTag::DateTimeOriginal => ExifTag::DateTimeOriginal(v),
        TextTag::CreateDate => ExifTag::CreateDate(v),
        TextTag::OffsetTimeOriginal => ExifTag::OffsetTimeOriginal(v),
        TextTag::GpsLatitudeRef => ExifTag::GPSLatitudeRef(v),
        TextTag::GpsLongitudeRef => ExifTag::GPSLongitudeRef(v),
        TextTag::ImageDescription => ExifTag::ImageDescription(v),
        TextTag::Artist => ExifTag::Artist(v),
    });
}

/// `Metadata::set_tag` with a rational tag.  Claimed: a lookup of `tag`
/// then finds `v`, and of every other tag what it found before.
#[verifier::external_body]
fn exif_set_rationals(m: &mut Metadata, tag: RationalTag, v: Vec<(u32, u32)>)
    ensures
        exif_rationals(*final(m)) == exif_rationals(*old(m)).insert(tag, v@),
        exif_texts(*final(m)) == exif_texts(*old(m)),
{
    let r: Vec<uR64> = v.into_iter().map(|(n, d)| uR64 { nominator: n, denominator: d }).collect();
    m.set_tag(match tag {
        RationalTag::GpsLatitude => ExifTag::GPSLatitude(r),
        RationalTag::GpsLongitude => ExifTag::GPSLongitude(r),
        RationalTag::GpsAltitude => ExifTag::GPSAltitude(r),
    });
}

/// `Metadata::set_tag` with `GPSAltitudeRef`, a tag of its own.  Claimed:
/// the lookups of the text and rational tags find what they found before.
#[verifier::external_body]
fn exif_set_altitude_ref(m: &mut Metadata, v: Vec<u8>)
    ensures
        exif_texts(*final(m)) == exif_texts(*old(m)),
        exif_rationals(*final(m)) == exif_rationals(*old(m)),
{
    m.set_tag(ExifTag::GPSAltitudeRef(v));
}

/// One change to the metadata.
pub enum ExifEdit {
    /// Set a text tag.
    Text(TextTag, String),
    /// Set a rational tag.
    Rationals(RationalTag, Vec<(u32, u32)>),
    /// Set `GPSAltitudeRef`.
    AltitudeRef(Vec<u8>),
}

/// The content of an [`ExifEdit`].
pub enum EditView {
    Text(TextTag, Seq<char>),
    Rationals(RationalTag, Seq<(u32, u32)>),
    AltitudeRef(Seq<u8>),
}

impl View for ExifEdit {
    type V = EditView;

    open spec fn view(&self) -> EditView {
        match self {
            ExifEdit::Text(t, v) => EditView::Text(*t, v@),
            ExifEdit::Rationals(t, v) => EditView::Rationals(*t, v@),
            ExifEdit::AltitudeRef(v) => EditView::AltitudeRef(v@),
        }
    }
}

/// The contents of a list of edits.
pub open spec fn edit_views(edits: Seq<ExifEdit>) -> Seq<EditView> {
    Seq::new(edits.len(), |i: int| edits[i]@)
}

/// The text tags after the edits, in order.
pub open spec fn texts_after(start: Map<TextTag, Seq<char>>, edits: Seq<EditView>) -> Map<TextTag, Seq<char>>
    decreases edits.len(),
{
    if edits.len() == 0 {
        start
    } else {
        let before = texts_after(start, edits.drop_last());
        match edits.last() {
            EditView::Text(t, v) => before.insert(t, v),
            _ => before,
        }
    }
}

/// The rational tags after the edits, in order.
pub open spec fn rationals_after(start: Map<RationalTag, Seq<(u32, u32)>>, edits: Seq<EditView>) -> Map<RationalTag, Seq<(u32, u32)>>
    decreases edits.len(),
{
    if edits.len() == 0 {
        start
    } else {
        let before = rationals_after(start, edits.drop_last());
        match edits.last() {
            EditView::Rationals(t, v) => before.insert(t, v),
            _ => before,
        }
    }
}

/// Applies the edits to the metadata, in order.
pub fn apply_exif_edits(m: &mut Metadata, edits: Vec<ExifEdit>)
    ensures
        exif_texts(*final(m)) == texts_after(exif_texts(*old(m)), edit_views(edits@)),
        exif_rationals(*final(m)) == rationals_after(exif_rationals(*old(m)), edit_views(edits@)),
{
    let ghost all = edit_views(edits@);
    let ghost m0 = *m;
    let mut rest = edits;
    let ghost mut k: int = 0;
    assert(all.skip(0) =~= all);
    assert(all.take(0) =~= Seq::<EditView>::empty());
    while rest.len() > 0
        invariant
            0 <= k <= all.len(),
            edit_views(rest@) == all.skip(k),
            exif_texts(*m) == texts_after(exif_texts(m0), all.take(k)),
            exif_rationals(*m) == rationals_after(exif_rationals(m0), all.take(k)),
        decreases rest@.len(),
    {
        let ghost before = rest@;
        let e = rest.remove(0);
        proof {
            assert(edit_views(before)[0] == e@);
            assert(edit_views(before).len() == all.len() - k);
            assert(all.skip(k)[0] == all[k]);
            assert(all[k] == e@);
            assert(all.take(k + 1).drop_last() =~= all.take(k));
            assert(all.take(k + 1).last() == e@);
            assert(rest@ =~= before.remove(0));
            assert forall|i: int| 0 <= i < rest@.len() implies #[trigger] edit_views(rest@)[i] == all.skip(k + 1)[i] by {
                assert(rest@[i] == before[i + 1]);
                assert(edit_views(before)[i + 1] == all.skip(k)[i + 1]);
            }
            assert(edit_views(rest@) =~= all.skip(k + 1));
        }
        match e {
            ExifEdit::Text(t, v) => exif_set_text(m, t, v),
            ExifEdit::Rationals(t, v) => exif_set_rationals(m, t, v),
            ExifEdit::AltitudeRef(v) => exif_set_altitude_ref(m, v),
        }
        proof {
            k = k + 1;
        }
    }
    assert(all.take(k) =~= all);
}

/// The text of `t` in `texts`, empty when the tag is absent.
pub open spec fn text_or_empty(texts: Map<TextTag, Seq<char>>, t: TextTag) -> Seq<char> {
    if texts.contains_key(t) {
        texts[t]
    } else {
        Seq::empty()
    }
}

/// The date of an EXIF date-time: its first word when it has two or more,
/// else all of it.
pub open spec fn date_part(v: Seq<char>) -> Seq<char> {
    if words(v).len() >= 2 {
        words(v)[0]
    } else {
        v
    }
}

/// The time of an EXIF date-time: its second word when it has two or more,
/// else empty.
pub open spec fn time_part(v: Seq<char>) -> Seq<char> {
    if words(v).len() >= 2 {
        words(v)[1]
    } else {
        Seq::empty()
    }
}

/// The altitude in whole metres: the first rational, divided out, when its
/// denominator is not zero.
pub open spec fn altitude_text(rats: Map<RationalTag, Seq<(u32, u32)>>) -> Seq<char> {
    if rats.contains_key(RationalTag::GpsAltitude) && rats[RationalTag::GpsAltitude].len() > 0
        && rats[RationalTag::GpsAltitude][0].1 != 0 {
        let r = rats[RationalTag::GpsAltitude][0];
        decimal((r.0 / r.1) as nat)
    } else {
        Seq::empty()
    }
}

/// The value of each field that the EXIF tags give; the coordinates, which
/// need floating point, and the XMP fields are left empty.
pub open spec fn exif_field_value(texts: Map<TextTag, Seq<char>>, rats: Map<RationalTag, Seq<(u32, u32)>>, f: Field) -> Seq<char> {
    match f {
        Field::Date => date_part(text_or_empty(texts, TextTag::DateTimeOriginal)),
        Field::Time => time_part(text_or_empty(texts, TextTag::DateTimeOriginal)),
        Field::DigitizedDate => text_or_empty(texts, TextTag::CreateDate),
        Field::OffsetTime => text_or_empty(texts, TextTag::OffsetTimeOriginal),
        Field::Altitude => altitude_text(rats),
        Field::Caption => text_or_empty(texts, TextTag::ImageDescription),
        Field::Credit => text_or_empty(texts, TextTag::Artist),
        _ => Seq::empty(),
    }
}

/// A GPS coordinate as stored: degrees, minutes and seconds, and the
/// hemisphere reference when there is one.
pub struct GpsReading {
    pub rationals: Vec<(u32, u32)>,
    pub reference: Option<String>,
}

/// The reading of a coordinate: present when the tag holds at least three
/// rationals; the reference is read only then.
pub open spec fn gps_reading_is(r: Option<GpsReading>, texts: Map<TextTag, Seq<char>>, rats: Map<RationalTag, Seq<(u32, u32)>>, tag: RationalTag, reference: TextTag) -> bool {
    if rats.contains_key(tag) && rats[tag].len() >= 3 {
        &&& r matches Some(g)
        &&& g.rationals@ == rats[tag]
        &&& match g.reference {
            Some(x) => texts.contains_key(reference) && x@ == texts[reference],
            None => !texts.contains_key(reference),
        }
    } else {
        r is None
    }
}

/// What the EXIF tags of a photograph give.
pub struct ExifReading {
    /// The fields that the tags give (see [`exif_field_value`]).
    pub fields: ExifFields,
    /// The latitude, when stored.
    pub latitude: Option<GpsReading>,
    /// The longitude, when stored.
    pub longitude: Option<GpsReading>,
}

fn text_value(m: &Metadata, t: TextTag) -> (r: String)
    ensures
        r@ == text_or_empty(exif_texts(*m), t),
{
    match exif_text_tag(m, t) {
        Some(v) => v,
        None => String::new(),
    }
}

fn gps_reading(m: &Metadata, tag: RationalTag, reference: TextTag) -> (r: Option<GpsReading>)
    ensures
        gps_reading_is(r, exif_texts(*m), exif_rationals(*m), tag, reference),
{
    match exif_rational_tag(m, tag) {
        Some(rats) => {
            if rats.len() >= 3 {
                let reference = exif_text_tag(m, reference);
                Some(GpsReading { rationals: rats, reference })
            } else {
                None
            }
        },
        None => None,
    }
}

/// Reads the editor's fields out of the EXIF tags of a photograph.
pub fn read_exif(m: &Metadata) -> (r: ExifReading)
    ensures
        forall|f: Field| #[trigger] r.fields.get(f) == exif_field_value(exif_texts(*m), exif_rationals(*m), f),
        gps_reading_is(r.latitude, exif_texts(*m), exif_rationals(*m), RationalTag::GpsLatitude, TextTag::GpsLatitudeRef),
        gps_reading_is(r.longitude, exif_texts(*m), exif_rationals(*m), RationalTag::GpsLongitude, TextTag::GpsLongitudeRef),
        r.latitude matches Some(g) ==> match g.reference {
            Some(x) => exif_texts(*m).contains_key(TextTag::GpsLatitudeRef) && x@ == exif_texts(*m)[TextTag::GpsLatitudeRef],
            None => !exif_texts(*m).contains_key(TextTag::GpsLatitudeRef),
        },
        r.longitude matches Some(g) ==> match g.reference {
            Some(x) => exif_texts(*m).contains_key(TextTag::GpsLongitudeRef) && x@ == exif_texts(*m)[TextTag::GpsLongitudeRef],
            None => !exif_texts(*m).contains_key(TextTag::GpsLongitudeRef),
        },
{
    let mut fields = ExifFields::blank();
    assert(fields.get(Field::Date) == Seq::<char>::empty());
    assert(fields.get(Field::Time) == Seq::<char>::empty());
    assert(fields.get(Field::Altitude) == Seq::<char>::empty());
    assert(fields.get(Field::Latitude) == Seq::<char>::empty());
    assert(fields.get(Field::Longitude) == Seq::<char>::empty());
    assert(fields.get(Field::City) == Seq::<char>::empty());
    assert(fields.get(Field::State) == Seq::<char>::empty());
    assert(fields.get(Field::Country) == Seq::<char>::empty());
    assert(fields.get(Field::Sublocation) == Seq::<char>::empty());
    assert(fields.get(Field::People) == Seq::<char>::empty());
    if let Some(v) = exif_text_tag(m, TextTag::DateTimeOriginal) {
        let chars = chars_of(v.as_str());
        match first_two_words(&chars) {
            Some((date, time)) => {
                fields.date_str = string_of(&date);
                fields.time_str = string_of(&time);
            },
            None => {
                fields.date_str = v;
            },
        }
    } else {
        assert(trim_start(Seq::<char>::empty()) =~= Seq::<char>::empty());
        assert(words(Seq::<char>::empty()) =~= Seq::<Seq<char>>::empty());
    }
    assert(fields.date_str@ == date_part(text_or_empty(exif_texts(*m), TextTag::DateTimeOriginal)));
    assert(fields.time_str@ == time_part(text_or_empty(exif_texts(*m), TextTag::DateTimeOriginal)));
    fields.digitized_date_str = text_value(m, TextTag::CreateDate);
    fields.offset_time_str = text_value(m, TextTag::OffsetTimeOriginal);
    if let Some(rats) = exif_rational_tag(m, RationalTag::GpsAltitude) {
        if rats.len() > 0 {
            let (n, d) = rats[0];
            if d != 0 {
                fields.altitude_str = string_of(&decimal_chars((n / d) as u64));
            }
        }
    }
    fields.caption_str = text_value(m, TextTag::ImageDescription);
    fields.credit_str = text_value(m, TextTag::Artist);
    proof {
        let texts = exif_texts(*m);
        let rats = exif_rationals(*m);
        assert(fields.get(Field::Date) == exif_field_value(texts, rats, Field::Date));
        assert(fields.get(Field::Time) == exif_field_value(texts, rats, Field::Time));
    }
    let latitude = gps_reading(m, RationalTag::GpsLatitude, TextTag::GpsLatitudeRef);
    let longitude = gps_reading(m, RationalTag::GpsLongitude, TextTag::GpsLongitudeRef);
    ExifReading { fields, latitude, longitude }
}

/// Law: a coordinate is read exactly when its tag holds at least three
/// rationals, which it then carries as they are; its hemisphere is the
/// text of its own reference tag (`GPSLatitudeRef` for the latitude,
/// `GPSLongitudeRef` for the longitude), present exactly when that tag
/// is.
pub proof fn law_gps_reference_is_its_own(
    r: Option<GpsReading>,
    texts: Map<TextTag, Seq<char>>,
    rats: Map<RationalTag, Seq<(u32, u32)>>,
    tag: RationalTag,
    reference: TextTag,
)
    requires
        gps_reading_is(r, texts, rats, tag, reference),
    ensures
        r is Some <==> (rats.contains_key(tag) && rats[tag].len() >= 3),
        r matches Some(g) ==> g.rationals@ == rats[tag],
        r matches Some(g) ==> (g.reference is Some <==> texts.contains_key(reference)),
        r matches Some(g) ==> (g.reference matches Some(x) ==> x@ == texts[reference]),
{
}

/// Law: what the other coordinate's reference tag says has no bearing on
/// a coordinate's reading: with the longitude read from `GPSLongitude` and
/// `GPSLongitudeRef`, setting `GPSLatitudeRef` to anything leaves it as it
/// is, and the other way round.
pub proof fn law_gps_references_independent(
    r: Option<GpsReading>,
    texts: Map<TextTag, Seq<char>>,
    rats: Map<RationalTag, Seq<(u32, u32)>>,
    v: Seq<char>,
)
    ensures
        gps_reading_is(r, texts, rats, RationalTag::GpsLongitude, TextTag::GpsLongitudeRef)
            <==> gps_reading_is(r, texts.insert(TextTag::GpsLatitudeRef, v), rats, RationalTag::GpsLongitude, TextTag::GpsLongitudeRef),
        gps_reading_is(r, texts, rats, RationalTag::GpsLatitude, TextTag::GpsLatitudeRef)
            <==> gps_reading_is(r, texts.insert(TextTag::GpsLongitudeRef, v), rats, RationalTag::GpsLatitude, TextTag::GpsLatitudeRef),
        gps_reading_is(r, texts, rats, RationalTag::GpsLongitude, TextTag::GpsLongitudeRef)
            <==> gps_reading_is(r, texts.remove(TextTag::GpsLatitudeRef), rats, RationalTag::GpsLongitude, TextTag::GpsLongitudeRef),
        gps_reading_is(r, texts, rats, RationalTag::GpsLatitude, TextTag::GpsLatitudeRef)
            <==> gps_reading_is(r, texts.remove(TextTag::GpsLongitudeRef), rats, RationalTag::GpsLatitude, TextTag::GpsLatitudeRef),
{
}

/// The edit sets text tag `t`.
pub open spec fn edits_text_tag(e: EditView, t: TextTag) -> bool {
    match e {
        EditView::Text(u, _) => u == t,
        _ => false,
    }
}

/// The text that an edit writes.
pub open spec fn edit_text(e: EditView) -> Seq<char> {
    match e {
        EditView::Text(_, v) => v,
        _ => Seq::empty(),
    }
}

/// Law: after a list of edits, a lookup of a text tag finds what its last
/// edit wrote.
pub proof fn law_last_edit_read_back(start: Map<TextTag, Seq<char>>, edits: Seq<EditView>, t: TextTag, i: int)
    requires
        0 <= i < edits.len(),
        edits_text_tag(edits[i], t),
        forall|j: int| i < j < edits.len() ==> !edits_text_tag(#[trigger] edits[j], t),
    ensures
        texts_after(start, edits).contains_key(t),
        texts_after(start, edits)[t] == edit_text(edits[i]),
    decreases edits.len(),
{
    if i < edits.len() - 1 {
        assert(!edits_text_tag(edits[edits.len() - 1], t));
        assert forall|j: int| i < j < edits.len() - 1 implies !edits_text_tag(#[trigger] edits.drop_last()[j], t) by {
            assert(edits.drop_last()[j] == edits[j]);
        }
        law_last_edit_read_back(start, edits.drop_last(), t, i);
    }
}

/// Law: a text tag that no edit touches reads as before.
pub proof fn law_untouched_tag_kept(start: Map<TextTag, Seq<char>>, edits: Seq<EditView>, t: TextTag)
    requires
        forall|j: int| 0 <= j < edits.len() ==> !edits_text_tag(#[trigger] edits[j], t),
    ensures
        texts_after(start, edits).contains_key(t) == start.contains_key(t),
        start.contains_key(t) ==> texts_after(start, edits)[t] == start[t],
    decreases edits.len(),
{
    if edits.len() > 0 {
        assert(!edits_text_tag(edits[edits.len() - 1], t));
        assert forall|j: int| 0 <= j < edits.len() - 1 implies !edits_text_tag(#[trigger] edits.drop_last()[j], t) by {
            assert(edits.drop_last()[j] == edits[j]);
        }
        law_untouched_tag_kept(start, edits.drop_last(), t);
    }
}


/// Applying two lists of edits in turn is applying them joined.
pub proof fn lemma_edits_after_concat(
    texts: Map<TextTag, Seq<char>>,
    rats: Map<RationalTag, Seq<(u32, u32)>>,
    a: Seq<EditView>,
    b: Seq<EditView>,
)
    ensures
        texts_after(texts, a + b) == texts_after(texts_after(texts, a), b),
        rationals_after(rats, a + b) == rationals_after(rationals_after(rats, a), b),
    decreases b.len(),
{
    if b.len() == 0 {
        assert(a + b =~= a);
    } else {
        assert((a + b).drop_last() =~= a + b.drop_last());
        assert((a + b).last() == b.last());
        lemma_edits_after_concat(texts, rats, a, b.drop_last());
    }
}

} // verus!
