//! What "Apply" writes into a photograph: the EXIF edits and the XMP
//! packet, worked out from the edit form and the photograph's current
//! fields.  A non-empty field of the form (trimmed) replaces; an empty one
//! keeps what the photograph has.

use vstd::prelude::*;
use crate::exif::{EditView, ExifEdit, RationalTag, TextTag, edit_views};
use crate::fields::ExifFields;
use crate::text::{
    chars_of, find, find_from, lemma_trim_end_take, lemma_trim_start_skip, parse_u32_chars,
    parse_u32_spec, slice_chars, string_of, trim, trim_bounds, trim_start,
};

verus! {

broadcast use vstd::string::group_string_axioms;

/// The packet up to the city value.
pub open spec fn packet_head() -> Seq<char> {
    "<?xpacket begin=\"\" id=\"W5M0MpCehiHzreSzNTczkc9d\"?>\n<x:xmpmeta xmlns:x=\"adobe:ns:meta/\" x:xmptk=\"Adobe XMP Core 5.6-c140\">\n <rdf:RDF xmlns:rdf=\"http://www.w3.org/1999/02/22-rdf-syntax-ns#\">\n  <rdf:Description rdf:about=\"\"\n    xmlns:photoshop=\"http://ns.adobe.com/photoshop/1.0/\"\n    xmlns:iptcCore=\"http://iptc.org/std/Iptc4xmpCore/1.0/xmlns/\"\n    xmlns:dc=\"http://purl.org/dc/elements/1.1/\">\n   <photoshop:City>"@
}

/// Between the city and the state.
pub open spec fn after_city() -> Seq<char> {
    "</photoshop:City>\n   <photoshop:State>"@
}

/// Between the state and the country.
pub open spec fn after_state() -> Seq<char> {
    "</photoshop:State>\n   <photoshop:Country>"@
}

/// Between the country and the location.
pub open spec fn after_country() -> Seq<char> {
    "</photoshop:Country>\n   <iptcCore:Location>"@
}

/// Between the location and the list of people.
pub open spec fn after_location() -> Seq<char> {
    "</iptcCore:Location>\n   <dc:subject>\n    <rdf:Bag>\n     "@
}

/// The packet after the list of people.
pub open spec fn packet_tail() -> Seq<char> {
    "\n    </rdf:Bag>\n   </dc:subject>\n  </rdf:Description>\n </rdf:RDF>\n</x:xmpmeta>\n<?xpacket end=\"w\"?>"@
}

/// The XMP packet that "Apply" writes, with the given values.
pub open spec fn xmp_packet(city: Seq<char>, state: Seq<char>, country: Seq<char>, location: Seq<char>, people: Seq<char>) -> Seq<char> {
    packet_head() + city + after_city() + state + after_state() + country + after_country() + location
        + after_location() + people + packet_tail()
}

/// The value written for a field: the form's value, trimmed, when it is
/// not empty; else the photograph's own.
pub open spec fn chosen_value(form: Seq<char>, own: Seq<char>) -> Seq<char> {
    if trim(form).len() > 0 {
        trim(form)
    } else {
        own
    }
}

/// Law: a field of the form that holds more than blanks replaces the
/// photograph's value with its own text, trimmed; a field that is empty or
/// blank keeps the photograph's value as it is.
pub proof fn law_form_value_replaces(form: Seq<char>, own: Seq<char>)
    ensures
        trim(form).len() > 0 ==> chosen_value(form, own) == trim(form),
        trim(form).len() == 0 ==> chosen_value(form, own) == own,
        form.len() == 0 ==> chosen_value(form, own) == own,
{
    if form.len() == 0 {
        assert(trim(form).len() <= form.len()) by {
            lemma_trim_start_skip(form);
            lemma_trim_end_take(trim_start(form));
        }
    }
}

/// One person as a list item; nothing for an empty name.
pub open spec fn person_item(name: Seq<char>) -> Seq<char> {
    if name.len() == 0 {
        Seq::empty()
    } else {
        "<rdf:li>"@ + name + "</rdf:li>"@
    }
}

/// The list items of a comma-separated list of people: each name trimmed,
/// empty names left out.
pub open spec fn people_items(s: Seq<char>) -> Seq<char>
    decreases s.len(),
{
    match find(s, seq![',']) {
        Some(i) => person_item(trim(s.take(i))) + people_items(s.skip(i + 1)),
        None => person_item(trim(s)),
    }
}

/// The packet for a photograph: each value chosen from the form and the
/// photograph's own fields.
pub open spec fn planned_packet(form: ExifFields, own: ExifFields) -> Seq<char> {
    xmp_packet(
        chosen_value(form.city_str@, own.city_str@),
        chosen_value(form.state_str@, own.state_str@),
        chosen_value(form.country_str@, own.country_str@),
        chosen_value(form.sublocation_str@, own.sublocation_str@),
        people_items(chosen_value(form.people_str@, own.people_str@)),
    )
}

/// The trimmed text of `s`.
pub fn trimmed(s: &String) -> (r: Vec<char>)
    ensures
        r@ == trim(s@),
{
    let c = chars_of(s.as_str());
    let (lo, hi) = trim_bounds(&c, 0, c.len());
    assert(c@.subrange(0, c.len() as int) =~= c@);
    slice_chars(&c, lo, hi)
}

/// The value written for a field (see [`chosen_value`]).
pub fn choose_value(form: &String, own: &String) -> (r: String)
    ensures
        r@ == chosen_value(form@, own@),
{
    let t = trimmed(form);
    if t.len() > 0 {
        string_of(&t)
    } else {
        own.clone()
    }
}

fn append_chars(out: &mut Vec<char>, s: &Vec<char>)
    ensures
        final(out)@ == old(out)@ + s@,
{
    let mut i: usize = 0;
    while i < s.len()
        invariant
            i <= s.len(),
            out@ == old(out)@ + s@.take(i as int),
        decreases s.len() - i,
    {
        out.push(s[i]);
        assert(s@.take(i + 1) =~= s@.take(i as int).push(s@[i as int]));
        i = i + 1;
    }
    assert(s@.take(s.len() as int) =~= s@);
}

fn append_person(out: &mut Vec<char>, s: &Vec<char>, from: usize, to: usize)
    requires
        from <= to <= s.len(),
    ensures
        final(out)@ == old(out)@ + person_item(trim(s@.subrange(from as int, to as int))),
{
    let (lo, hi) = trim_bounds(s, from, to);
    if lo < hi {
        let open = chars_of("<rdf:li>");
        let close = chars_of("</rdf:li>");
        let name = slice_chars(s, lo, hi);
        append_chars(out, &open);
        append_chars(out, &name);
        append_chars(out, &close);
        assert(final(out)@ =~= old(out)@ + person_item(trim(s@.subrange(from as int, to as int))));
    } else {
        assert(old(out)@ + person_item(trim(s@.subrange(from as int, to as int))) =~= old(out)@);
    }
}

/// The list items for a comma-separated list of people (see
/// [`people_items`]).
pub fn people_list_items(people: &String) -> (r: String)
    ensures
        r@ == people_items(people@),
{
    let s = chars_of(people.as_str());
    let comma = vec![','];
    assert(comma@ =~= seq![',']);
    let mut out: Vec<char> = Vec::new();
    let mut pos: usize = 0;
    assert(s@.skip(0) =~= s@);
    loop
        invariant
            pos <= s.len(),
            s@ == people@,
            comma@ == seq![','],
            out@ + people_items(s@.skip(pos as int)) == people_items(s@),
        decreases s.len() - pos,
    {
        assert(s@.skip(pos as int) =~= s@.subrange(pos as int, s.len() as int));
        match find_from(&s, pos, &comma) {
            Some(i) => {
                let ghost before = out@;
                append_person(&mut out, &s, pos, i);
                assert(s@.skip(pos as int).take(i - pos) =~= s@.subrange(pos as int, i as int));
                assert(s@.skip(pos as int).skip(i - pos + 1) =~= s@.skip(i + 1));
                assert(out@ + people_items(s@.skip(i + 1)) =~= before + people_items(s@.skip(pos as int)));
                pos = i + 1;
            },
            None => {
                let ghost before = out@;
                append_person(&mut out, &s, pos, s.len());
                assert(out@ =~= before + people_items(s@.skip(pos as int)));
                return string_of(&out);
            },
        }
    }
}

/// The XMP packet to write into a photograph (see [`planned_packet`]).
pub fn xmp_packet_for(form: &ExifFields, own: &ExifFields) -> (r: String)
    ensures
        r@ == planned_packet(*form, *own),
{
    let city = choose_value(&form.city_str, &own.city_str);
    let state = choose_value(&form.state_str, &own.state_str);
    let country = choose_value(&form.country_str, &own.country_str);
    let location = choose_value(&form.sublocation_str, &own.sublocation_str);
    let people_raw = choose_value(&form.people_str, &own.people_str);
    let people = people_list_items(&people_raw);
    let mut r = String::from_str("<?xpacket begin=\"\" id=\"W5M0MpCehiHzreSzNTczkc9d\"?>\n<x:xmpmeta xmlns:x=\"adobe:ns:meta/\" x:xmptk=\"Adobe XMP Core 5.6-c140\">\n <rdf:RDF xmlns:rdf=\"http://www.w3.org/1999/02/22-rdf-syntax-ns#\">\n  <rdf:Description rdf:about=\"\"\n    xmlns:photoshop=\"http://ns.adobe.com/photoshop/1.0/\"\n    xmlns:iptcCore=\"http://iptc.org/std/Iptc4xmpCore/1.0/xmlns/\"\n    xmlns:dc=\"http://purl.org/dc/elements/1.1/\">\n   <photoshop:City>");
    r.append(city.as_str());
    r.append("</photoshop:City>\n   <photoshop:State>");
    r.append(state.as_str());
    r.append("</photoshop:State>\n   <photoshop:Country>");
    r.append(country.as_str());
    r.append("</photoshop:Country>\n   <iptcCore:Location>");
    r.append(location.as_str());
    r.append("</iptcCore:Location>\n   <dc:subject>\n    <rdf:Bag>\n     ");
    r.append(people.as_str());
    r.append("\n    </rdf:Bag>\n   </dc:subject>\n  </rdf:Description>\n </rdf:RDF>\n</x:xmpmeta>\n<?xpacket end=\"w\"?>");
    r
}

/// A text edit when the form's field, trimmed, is not empty.
pub open spec fn text_edit(tag: TextTag, form: Seq<char>) -> Seq<EditView> {
    if trim(form).len() > 0 {
        seq![EditView::Text(tag, trim(form))]
    } else {
        Seq::empty()
    }
}

/// The original date and time, written when the form gives either: each
/// part chosen from the form and the photograph, separated by a space.
pub open spec fn date_time_edit(form: ExifFields, own: ExifFields) -> Seq<EditView> {
    if trim(form.date_str@).len() > 0 || trim(form.time_str@).len() > 0 {
        seq![EditView::Text(
            TextTag::DateTimeOriginal,
            chosen_value(form.date_str@, own.date_str@) + seq![' '] + chosen_value(form.time_str@, own.time_str@),
        )]
    } else {
        Seq::empty()
    }
}

/// The altitude, written when the form's value (trimmed) reads as a
/// whole number of metres: as one rational over 1, above sea level.
pub open spec fn altitude_edits(form: ExifFields) -> Seq<EditView> {
    match parse_u32_spec(trim(form.altitude_str@)) {
        Some(a) => seq![
            EditView::Rationals(RationalTag::GpsAltitude, seq![(a, 1u32)]),
            EditView::AltitudeRef(seq![0u8]),
        ],
        None => Seq::empty(),
    }
}

/// The EXIF edits that "Apply" makes to a photograph, but for the
/// coordinates: date and time, digitized date, UTC offset, altitude,
/// description and credit, in that order.
pub open spec fn planned_exif_edits(form: ExifFields, own: ExifFields) -> Seq<EditView> {
    date_time_edit(form, own) + text_edit(TextTag::CreateDate, form.digitized_date_str@)
        + text_edit(TextTag::OffsetTimeOriginal, form.offset_time_str@) + altitude_edits(form)
        + text_edit(TextTag::ImageDescription, form.caption_str@) + text_edit(TextTag::Artist, form.credit_str@)
}

fn push_text_edit(edits: &mut Vec<ExifEdit>, tag: TextTag, form: &String)
    ensures
        edit_views(final(edits)@) == edit_views(old(edits)@) + text_edit(tag, form@),
{
    let t = trimmed(form);
    if t.len() > 0 {
        edits.push(ExifEdit::Text(tag, string_of(&t)));
        assert(edit_views(final(edits)@) =~= edit_views(old(edits)@) + text_edit(tag, form@));
    } else {
        assert(edit_views(old(edits)@) + text_edit(tag, form@) =~= edit_views(old(edits)@));
    }
}

/// The EXIF edits that "Apply" makes (see [`planned_exif_edits`]).
pub fn plan_exif_edits(form: &ExifFields, own: &ExifFields) -> (r: Vec<ExifEdit>)
    ensures
        edit_views(r@) == planned_exif_edits(*form, *own),
{
    let mut edits: Vec<ExifEdit> = Vec::new();
    assert(edit_views(edits@) =~= Seq::<EditView>::empty());
    let date_t = trimmed(&form.date_str);
    let time_t = trimmed(&form.time_str);
    if date_t.len() > 0 || time_t.len() > 0 {
        let mut v = choose_value(&form.date_str, &own.date_str);
        v.append(" ");
        let t = choose_value(&form.time_str, &own.time_str);
        v.append(t.as_str());
        proof {
            reveal_strlit(" ");
            assert(" "@ =~= seq![' ']);
        }
        assert(v@ == chosen_value(form.date_str@, own.date_str@) + seq![' '] + chosen_value(form.time_str@, own.time_str@));
        let ghost vv = v@;
        edits.push(ExifEdit::Text(TextTag::DateTimeOriginal, v));
        assert(edits@[0]@ == EditView::Text(TextTag::DateTimeOriginal, vv));
        assert(edit_views(edits@) =~= date_time_edit(*form, *own));
    } else {
        assert(edit_views(edits@) =~= date_time_edit(*form, *own));
    }
    push_text_edit(&mut edits, TextTag::CreateDate, &form.digitized_date_str);
    push_text_edit(&mut edits, TextTag::OffsetTimeOriginal, &form.offset_time_str);
    let alt_t = trimmed(&form.altitude_str);
    let ghost before = edit_views(edits@);
    match parse_u32_chars(&alt_t, 0, alt_t.len()) {
        Some(a) => {
            assert(alt_t@.subrange(0, alt_t.len() as int) =~= alt_t@);
            let mut rats: Vec<(u32, u32)> = Vec::new();
            rats.push((a, 1u32));
            let mut reference: Vec<u8> = Vec::new();
            reference.push(0u8);
            assert(rats@ =~= seq![(a, 1u32)]);
            assert(reference@ =~= seq![0u8]);
            edits.push(ExifEdit::Rationals(RationalTag::GpsAltitude, rats));
            edits.push(ExifEdit::AltitudeRef(reference));
            assert(edit_views(edits@) =~= before + altitude_edits(*form));
        },
        None => {
            assert(alt_t@.subrange(0, alt_t.len() as int) =~= alt_t@);
            assert(edit_views(edits@) =~= before + altitude_edits(*form));
        },
    }
    push_text_edit(&mut edits, TextTag::ImageDescription, &form.caption_str);
    push_text_edit(&mut edits, TextTag::Artist, &form.credit_str);
    edits
}

} // verus!
