use batch_exif::exif::{apply_exif_edits, read_exif, ExifEdit, RationalTag, TextTag};
use batch_exif::fields::ExifFields;
use batch_exif::plan::plan_exif_edits;
use little_exif::metadata::Metadata;

#[test]
fn written_tags_read_back() {
    let mut m = Metadata::new();
    apply_exif_edits(
        &mut m,
        vec![
            ExifEdit::Text(TextTag::DateTimeOriginal, "2001:02:03 04:05:06".to_string()),
            ExifEdit::Text(TextTag::CreateDate, "1999:01:01 00:00:00".to_string()),
            ExifEdit::Text(TextTag::OffsetTimeOriginal, "+01:00".to_string()),
            ExifEdit::Rationals(RationalTag::GpsAltitude, vec![(250, 2)]),
            ExifEdit::AltitudeRef(vec![0]),
            ExifEdit::Text(TextTag::ImageDescription, "Beach".to_string()),
            ExifEdit::Text(TextTag::Artist, "Ann".to_string()),
            ExifEdit::Text(TextTag::Artist, "Bob".to_string()),
            ExifEdit::Rationals(RationalTag::GpsLatitude, vec![(48, 1), (51, 1), (2400, 100)]),
            ExifEdit::Text(TextTag::GpsLatitudeRef, "N".to_string()),
        ],
    );
    let r = read_exif(&m);
    assert_eq!(r.fields.date_str, "2001:02:03");
    assert_eq!(r.fields.time_str, "04:05:06");
    assert_eq!(r.fields.digitized_date_str, "1999:01:01 00:00:00");
    assert_eq!(r.fields.offset_time_str, "+01:00");
    assert_eq!(r.fields.altitude_str, "125");
    assert_eq!(r.fields.caption_str, "Beach");
    assert_eq!(r.fields.credit_str, "Bob");
    let lat = r.latitude.expect("latitude");
    assert_eq!(lat.rationals, vec![(48, 1), (51, 1), (2400, 100)]);
    assert_eq!(lat.reference.as_deref(), Some("N"));
    assert!(r.longitude.is_none());
}

#[test]
fn empty_metadata_reads_blank() {
    let r = read_exif(&Metadata::new());
    assert_eq!(r.fields.date_str, "");
    assert_eq!(r.fields.time_str, "");
    assert_eq!(r.fields.altitude_str, "");
    assert!(r.latitude.is_none());
}

#[test]
fn date_without_time_is_kept_whole() {
    let mut m = Metadata::new();
    apply_exif_edits(&mut m, vec![ExifEdit::Text(TextTag::DateTimeOriginal, "2001:02:03".to_string())]);
    let r = read_exif(&m);
    assert_eq!(r.fields.date_str, "2001:02:03");
    assert_eq!(r.fields.time_str, "");
}

#[test]
fn short_coordinates_and_zero_denominators_are_ignored() {
    let mut m = Metadata::new();
    apply_exif_edits(
        &mut m,
        vec![
            ExifEdit::Rationals(RationalTag::GpsLongitude, vec![(1, 1), (2, 1)]),
            ExifEdit::Rationals(RationalTag::GpsAltitude, vec![(5, 0)]),
        ],
    );
    let r = read_exif(&m);
    assert!(r.longitude.is_none());
    assert_eq!(r.fields.altitude_str, "");
}

#[test]
fn applied_form_reads_back() {
    let mut m = Metadata::new();
    apply_exif_edits(
        &mut m,
        vec![
            ExifEdit::Text(TextTag::Artist, "Ann".to_string()),
            ExifEdit::Text(TextTag::ImageDescription, "Old".to_string()),
        ],
    );
    let mut form = ExifFields::blank();
    form.caption_str = " Sunset ".to_string();
    form.date_str = "2020:01:01".to_string();
    form.altitude_str = " 12 ".to_string();
    let mut own = ExifFields::blank();
    own.date_str = "1999:01:01".to_string();
    own.time_str = "10:00:00".to_string();
    apply_exif_edits(&mut m, plan_exif_edits(&form, &own));
    let r = read_exif(&m);
    assert_eq!(r.fields.date_str, "2020:01:01");
    assert_eq!(r.fields.time_str, "10:00:00");
    assert_eq!(r.fields.caption_str, "Sunset");
    assert_eq!(r.fields.credit_str, "Ann");
    assert_eq!(r.fields.altitude_str, "12");
}
