use batch_exif::exif::{ExifEdit, RationalTag, TextTag};
use batch_exif::fields::ExifFields;
use batch_exif::plan::{people_list_items, plan_exif_edits, xmp_packet_for};
use batch_exif::xmp::{parse_xmp_bag, parse_xmp_tag, parse_xmp_tag_runs_off};

fn expected_packet(city: &str, state: &str, country: &str, loc: &str, people: &str) -> String {
    format!(
        r#"<?xpacket begin="" id="W5M0MpCehiHzreSzNTczkc9d"?>
<x:xmpmeta xmlns:x="adobe:ns:meta/" x:xmptk="Adobe XMP Core 5.6-c140">
 <rdf:RDF xmlns:rdf="http://www.w3.org/1999/02/22-rdf-syntax-ns#">
  <rdf:Description rdf:about=""
    xmlns:photoshop="http://ns.adobe.com/photoshop/1.0/"
    xmlns:iptcCore="http://iptc.org/std/Iptc4xmpCore/1.0/xmlns/"
    xmlns:dc="http://purl.org/dc/elements/1.1/">
   <photoshop:City>{}</photoshop:City>
   <photoshop:State>{}</photoshop:State>
   <photoshop:Country>{}</photoshop:Country>
   <iptcCore:Location>{}</iptcCore:Location>
   <dc:subject>
    <rdf:Bag>
     {}
    </rdf:Bag>
   </dc:subject>
  </rdf:Description>
 </rdf:RDF>
</x:xmpmeta>
<?xpacket end="w"?>"#,
        city, state, country, loc, people
    )
}

#[test]
fn people_become_list_items() {
    assert_eq!(
        people_list_items(&" Ann , ,Bob,".to_string()),
        "<rdf:li>Ann</rdf:li><rdf:li>Bob</rdf:li>"
    );
    assert_eq!(people_list_items(&"".to_string()), "");
}

#[test]
fn packet_takes_form_values_over_the_photographs_own() {
    let mut form = ExifFields::blank();
    form.city_str = "  Paris ".to_string();
    form.people_str = "Ann, Bob".to_string();
    form.state_str = "   ".to_string();
    let mut own = ExifFields::blank();
    own.city_str = "Lyon".to_string();
    own.state_str = " IDF ".to_string();
    own.country_str = "France".to_string();
    let packet = xmp_packet_for(&form, &own);
    assert_eq!(
        packet,
        expected_packet("Paris", " IDF ", "France", "", "<rdf:li>Ann</rdf:li><rdf:li>Bob</rdf:li>")
    );
}

fn text_of(e: &ExifEdit) -> Option<(TextTag, String)> {
    match e {
        ExifEdit::Text(t, v) => Some((*t, v.clone())),
        _ => None,
    }
}

#[test]
fn date_and_time_are_combined_with_the_photographs_own() {
    let mut form = ExifFields::blank();
    form.time_str = " 10:00:00 ".to_string();
    let mut own = ExifFields::blank();
    own.date_str = "2001:02:03".to_string();
    own.time_str = "09:00:00".to_string();
    let edits = plan_exif_edits(&form, &own);
    assert_eq!(edits.len(), 1);
    assert_eq!(text_of(&edits[0]), Some((TextTag::DateTimeOriginal, "2001:02:03 10:00:00".to_string())));
}

#[test]
fn empty_form_changes_nothing() {
    let edits = plan_exif_edits(&ExifFields::blank(), &ExifFields::blank());
    assert!(edits.is_empty());
}

#[test]
fn every_field_becomes_its_edit() {
    let mut form = ExifFields::blank();
    form.date_str = "2020:01:01".to_string();
    form.digitized_date_str = " 2021:01:01 ".to_string();
    form.offset_time_str = "-05:00".to_string();
    form.altitude_str = " 120 ".to_string();
    form.caption_str = "Picnic".to_string();
    form.credit_str = "Grandpa".to_string();
    let edits = plan_exif_edits(&form, &ExifFields::blank());
    assert_eq!(edits.len(), 7);
    assert_eq!(text_of(&edits[0]), Some((TextTag::DateTimeOriginal, "2020:01:01 ".to_string())));
    assert_eq!(text_of(&edits[1]), Some((TextTag::CreateDate, "2021:01:01".to_string())));
    assert_eq!(text_of(&edits[2]), Some((TextTag::OffsetTimeOriginal, "-05:00".to_string())));
    match &edits[3] {
        ExifEdit::Rationals(RationalTag::GpsAltitude, r) => assert_eq!(r, &vec![(120u32, 1u32)]),
        _ => panic!("altitude expected"),
    }
    match &edits[4] {
        ExifEdit::AltitudeRef(r) => assert_eq!(r, &vec![0u8]),
        _ => panic!("altitude reference expected"),
    }
    assert_eq!(text_of(&edits[5]), Some((TextTag::ImageDescription, "Picnic".to_string())));
    assert_eq!(text_of(&edits[6]), Some((TextTag::Artist, "Grandpa".to_string())));
}

#[test]
fn altitude_that_is_not_a_whole_number_is_not_written() {
    let mut form = ExifFields::blank();
    form.altitude_str = "12.5".to_string();
    assert!(plan_exif_edits(&form, &ExifFields::blank()).is_empty());
    form.altitude_str = "-3".to_string();
    assert!(plan_exif_edits(&form, &ExifFields::blank()).is_empty());
}

#[test]
fn written_packet_reads_back() {
    let mut form = ExifFields::blank();
    form.city_str = " Paris ".to_string();
    form.state_str = "Ile-de-France".to_string();
    form.country_str = "France".to_string();
    form.sublocation_str = "Montmartre".to_string();
    form.people_str = " Ann ,, Bob ,".to_string();
    let own = ExifFields::blank();
    let packet = xmp_packet_for(&form, &own);
    assert_eq!(parse_xmp_tag(&packet, "photoshop:City"), "Paris");
    assert_eq!(parse_xmp_tag(&packet, "photoshop:State"), "Ile-de-France");
    assert_eq!(parse_xmp_tag(&packet, "photoshop:Country"), "France");
    assert_eq!(parse_xmp_tag(&packet, "iptcCore:Location"), "Montmartre");
    assert_eq!(parse_xmp_bag(&packet, "dc:subject"), "Ann, Bob");
}

#[test]
fn empty_place_reads_back_empty() {
    let mut form = ExifFields::blank();
    form.city_str = "Paris".to_string();
    let own = ExifFields::blank();
    let packet = xmp_packet_for(&form, &own);
    assert_eq!(parse_xmp_tag(&packet, "photoshop:City"), "Paris");
    assert_eq!(parse_xmp_tag(&packet, "photoshop:State"), "");
    assert_eq!(parse_xmp_tag(&packet, "photoshop:Country"), "");
    assert_eq!(parse_xmp_tag(&packet, "iptcCore:Location"), "");
    assert_eq!(parse_xmp_bag(&packet, "dc:subject"), "");
    assert!(!parse_xmp_tag_runs_off(&packet, "photoshop:State"));
}

#[test]
fn attribute_inside_a_value_shadows_an_empty_place() {
    let mut form = ExifFields::blank();
    form.city_str = "State=\"Oz\"".to_string();
    let own = ExifFields::blank();
    let packet = xmp_packet_for(&form, &own);
    assert_eq!(parse_xmp_tag(&packet, "photoshop:State"), "Oz");
}
