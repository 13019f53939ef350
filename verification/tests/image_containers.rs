use batch_exif::container::{
    is_png_extension_str, jpeg_payload_for, png_payload_for, write_xmp_into_jpeg,
    write_xmp_into_png, xmp_of_jpeg, xmp_of_png, xmp_packet_of_image, XmpWrite,
};
use batch_exif::fields::ExifFields;
use batch_exif::plan::xmp_packet_for;
use batch_exif::xmp::{read_xmp_fields, xmp_fields_lookup_runs_off};
use img_parts::jpeg::Jpeg;
use img_parts::png::{Png, PngChunk};
use img_parts::Bytes;

fn tiny_jpeg() -> Vec<u8> {
    let mut b = vec![0xFF, 0xD8];
    b.extend_from_slice(&[0xFF, 0xE0, 0x00, 0x07, b'J', b'F', b'I', b'F', 0x00]);
    b.extend_from_slice(&[0xFF, 0xDA, 0x00, 0x04, 0x01, 0x02]);
    b.extend_from_slice(&[0x11, 0x22, 0x33, 0xFF, 0xD9]);
    b
}

fn tiny_png() -> Vec<u8> {
    let mut b = vec![0x89, 0x50, 0x4e, 0x47, 0x0d, 0x0a, 0x1a, 0x0a];
    for (kind, contents) in [(*b"IHDR", vec![0u8; 13]), (*b"IDAT", vec![1, 2, 3]), (*b"IEND", vec![])] {
        b.extend_from_slice(&PngChunk::new(kind, Bytes::from(contents)).encoder().bytes());
    }
    b
}

fn written(w: XmpWrite) -> Vec<u8> {
    match w {
        XmpWrite::Written(v) => v,
        XmpWrite::Unreadable => panic!("unreadable"),
        XmpWrite::TooLarge => panic!("too large"),
    }
}

const XML: &str = "<?xpacket?><x:xmpmeta a=\"1\"><photoshop:City>Oslo</photoshop:City></x:xmpmeta>";

#[test]
fn jpeg_packet_is_written_second_and_read_back() {
    let out = written(write_xmp_into_jpeg(tiny_jpeg(), XML));
    let jpeg = Jpeg::from_bytes(Bytes::from(out.clone())).unwrap();
    let markers: Vec<u8> = jpeg.segments().iter().map(|s| s.marker()).collect();
    assert_eq!(markers, vec![0xE0, 0xE1, 0xDA]);
    assert_eq!(xmp_of_jpeg(out.clone()), Some(XML.to_string()));
    assert_eq!(xmp_packet_of_image(out, false), Some(XML.to_string()));
}

#[test]
fn jpeg_packet_is_replaced_not_added() {
    let once = written(write_xmp_into_jpeg(tiny_jpeg(), XML));
    let twice = written(write_xmp_into_jpeg(once, "<x:xmpmeta >second"));
    let jpeg = Jpeg::from_bytes(Bytes::from(twice.clone())).unwrap();
    assert_eq!(jpeg.segments().len(), 3);
    assert_eq!(xmp_of_jpeg(twice), Some("<x:xmpmeta >second".to_string()));
}

#[test]
fn jpeg_without_packet_reads_none() {
    assert_eq!(xmp_of_jpeg(tiny_jpeg()), None);
    assert_eq!(xmp_of_jpeg(vec![1, 2, 3]), None);
}

#[test]
fn unreadable_and_oversized_jpeg() {
    assert!(matches!(write_xmp_into_jpeg(vec![0, 1, 2], XML), XmpWrite::Unreadable));
    let big = "a".repeat(70_000);
    assert!(matches!(write_xmp_into_jpeg(tiny_jpeg(), &big), XmpWrite::TooLarge));
}

#[test]
fn png_packet_goes_before_image_data_and_reads_from_the_element() {
    let out = written(write_xmp_into_png(tiny_png(), XML));
    let png = Png::from_bytes(Bytes::from(out.clone())).unwrap();
    let kinds: Vec<[u8; 4]> = png.chunks().iter().map(|c| c.kind()).collect();
    assert_eq!(kinds, vec![*b"IHDR", *b"iTXt", *b"IDAT", *b"IEND"]);
    let expected = &XML[XML.find("<x:xmpmeta ").unwrap()..];
    assert_eq!(xmp_of_png(out.clone()), Some(expected.to_string()));
    assert_eq!(xmp_packet_of_image(out, true), Some(expected.to_string()));
}

#[test]
fn png_packet_is_replaced_not_added() {
    let once = written(write_xmp_into_png(tiny_png(), XML));
    let twice = written(write_xmp_into_png(once, "<x:xmpmeta >2"));
    let png = Png::from_bytes(Bytes::from(twice)).unwrap();
    assert_eq!(png.chunks().len(), 4);
    assert!(matches!(write_xmp_into_png(vec![9, 9], XML), XmpWrite::Unreadable));
}

#[test]
fn payloads_carry_the_headers() {
    let j = jpeg_payload_for("é");
    assert_eq!(&j[..29], b"http://ns.adobe.com/xap/1.0/\0");
    assert_eq!(&j[29..], "é".as_bytes());
    let p = png_payload_for("x");
    assert_eq!(p, b"XML:com.adobe.xmp\0\0\0\0\0x".to_vec());
}

#[test]
fn png_extension_in_any_case() {
    assert!(is_png_extension_str("PNG"));
    assert!(!is_png_extension_str("jpg"));
}

#[test]
fn applied_packet_reads_back_into_the_form() {
    let mut form = ExifFields::blank();
    form.city_str = "Oslo".to_string();
    form.country_str = " Norway ".to_string();
    form.people_str = "Ann, Bob".to_string();
    let packet = xmp_packet_for(&form, &ExifFields::blank());
    for png in [false, true] {
        let out = if png {
            written(write_xmp_into_png(tiny_png(), &packet))
        } else {
            written(write_xmp_into_jpeg(tiny_jpeg(), &packet))
        };
        let xmp = xmp_packet_of_image(out, png).expect("packet");
        assert!(!xmp_fields_lookup_runs_off(&xmp));
        let mut read = ExifFields::blank();
        read_xmp_fields(&mut read, &xmp);
        assert_eq!(read.city_str, "Oslo");
        assert_eq!(read.state_str, "");
        assert_eq!(read.country_str, "Norway");
        assert_eq!(read.sublocation_str, "");
        assert_eq!(read.people_str, "Ann, Bob");
    }
}
