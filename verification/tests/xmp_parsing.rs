use batch_exif::xmp::{parse_xmp_bag, parse_xmp_tag, parse_xmp_tag_runs_off};

#[test]
fn element_value_is_read_and_trimmed() {
    let xmp = "<x><photoshop:City>  Lyon </photoshop:City></x>";
    assert_eq!(parse_xmp_tag(xmp, "photoshop:City"), "Lyon");
}

#[test]
fn local_name_is_used_when_the_prefix_differs() {
    let xmp = "<ps:City>Paris</City>";
    assert_eq!(parse_xmp_tag(xmp, "photoshop:City"), "");
    let xmp2 = "<City>Paris</City>";
    assert_eq!(parse_xmp_tag(xmp2, "photoshop:City"), "Paris");
}

#[test]
fn attribute_value_is_read() {
    let xmp = "<rdf:Description photoshop:City=\" Rome \" />";
    assert_eq!(parse_xmp_tag(xmp, "photoshop:City"), "Rome");
    let xmp2 = "<d photoshop:State='Ohio'/>";
    assert_eq!(parse_xmp_tag(xmp2, "photoshop:State"), "Ohio");
}

#[test]
fn missing_tag_reads_empty() {
    assert_eq!(parse_xmp_tag("<a>b</a>", "photoshop:City"), "");
}

#[test]
fn nested_markup_is_not_a_value() {
    let xmp = "<photoshop:City><b>x</b></photoshop:City>";
    assert_eq!(parse_xmp_tag(xmp, "photoshop:City"), "");
}

#[test]
fn attribute_at_the_end_runs_off() {
    assert!(parse_xmp_tag_runs_off("<a photoshop:City=", "photoshop:City"));
    assert!(!parse_xmp_tag_runs_off("<a photoshop:City=\"x\"", "photoshop:City"));
}

#[test]
fn bag_items_are_joined() {
    let xmp = "<dc:subject><rdf:Bag><rdf:li> Ann </rdf:li><rdf:li></rdf:li><rdf:li>Bob</rdf:li></rdf:Bag></dc:subject>";
    assert_eq!(parse_xmp_bag(xmp, "dc:subject"), "Ann, Bob");
}

#[test]
fn bag_without_items_is_empty() {
    assert_eq!(parse_xmp_bag("<dc:subject></dc:subject>", "dc:subject"), "");
    assert_eq!(parse_xmp_bag("<rdf:li>x</rdf:li>", "dc:subject"), "");
}

#[test]
fn bare_bag_reads_back_its_names() {
    let xmp = "<dc:subject><rdf:Bag><rdf:li>Ann</rdf:li><rdf:li>Bob</rdf:li></rdf:Bag></dc:subject>";
    assert_eq!(parse_xmp_bag(xmp, "dc:subject"), "Ann, Bob");
}
