use batch_exif::fields::{common_fields, ExifFields, Field};

fn with(date: &str, city: &str, people: &str) -> ExifFields {
    let mut f = ExifFields::blank();
    f.date_str = date.to_string();
    f.city_str = city.to_string();
    f.people_str = people.to_string();
    f
}

#[test]
fn agreeing_fields_are_kept_and_others_cleared() {
    let list = vec![with("2020:01:01", "Oslo", "Ann"), with("2020:01:01", "Bergen", "Ann")];
    let c = common_fields(&list);
    assert_eq!(c.date_str, "2020:01:01");
    assert_eq!(c.city_str, "");
    assert_eq!(c.people_str, "Ann");
}

#[test]
fn order_of_the_selection_does_not_matter() {
    let a = with("d1", "x", "");
    let b = with("d1", "y", "");
    let c = with("d2", "x", "");
    let r1 = common_fields(&vec![a.copy(), b.copy(), c.copy()]);
    let r2 = common_fields(&vec![c.copy(), a.copy(), b.copy(), a.copy()]);
    for f in [Field::Date, Field::City, Field::People] {
        assert_eq!(r1.field(f), r2.field(f));
    }
}

#[test]
fn one_photograph_shows_its_own_fields() {
    let c = common_fields(&vec![with("d", "c", "p")]);
    assert_eq!(c.date_str, "d");
    assert_eq!(c.city_str, "c");
}

#[test]
fn no_photograph_shows_nothing() {
    let c = common_fields(&Vec::new());
    assert_eq!(c.date_str, "");
}

#[test]
fn a_difference_after_a_clear_stays_cleared() {
    let list = vec![with("a", "", ""), with("b", "", ""), with("a", "", "")];
    assert_eq!(common_fields(&list).date_str, "");
}

#[test]
fn set_field_changes_only_that_field() {
    let mut f = with("d", "c", "p");
    f.set_field(Field::City, "Rome".to_string());
    assert_eq!(f.city_str, "Rome");
    assert_eq!(f.date_str, "d");
}

#[test]
fn adding_a_photograph_only_empties_fields() {
    let before = common_fields(&vec![with("d1", "Oslo", "Ann"), with("d1", "Oslo", "Bob")]);
    let after = common_fields(&vec![
        with("d1", "Oslo", "Ann"),
        with("d2", "Oslo", "Ann"),
        with("d1", "Oslo", "Bob"),
    ]);
    assert_eq!((before.date_str.as_str(), after.date_str.as_str()), ("d1", ""));
    assert_eq!((before.city_str.as_str(), after.city_str.as_str()), ("Oslo", "Oslo"));
    assert_eq!((before.people_str.as_str(), after.people_str.as_str()), ("", ""));
}
