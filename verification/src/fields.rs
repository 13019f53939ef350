//! The editable metadata fields of a photograph, and the view of them that
//! a selection of several photographs shows: a field keeps a value only
//! where every selected photograph has that same value.

use vstd::prelude::*;

verus! {

broadcast use vstd::string::group_string_axioms;

/// The text fields that the editor reads and writes.
pub struct ExifFields {
    pub date_str: String,
    pub time_str: String,
    pub digitized_date_str: String,
    pub offset_time_str: String,
    pub latitude_str: String,
    pub longitude_str: String,
    pub altitude_str: String,
    pub caption_str: String,
    pub credit_str: String,
    pub city_str: String,
    pub state_str: String,
    pub country_str: String,
    pub sublocation_str: String,
    pub people_str: String,
}

/// Names one of the fields of [`ExifFields`].
#[derive(Clone, Copy, PartialEq, Eq, Structural, Debug)]
pub enum Field {
    Date,
    Time,
    DigitizedDate,
    OffsetTime,
    Latitude,
    Longitude,
    Altitude,
    Caption,
    Credit,
    City,
    State,
    Country,
    Sublocation,
    People,
}

impl ExifFields {
    /// The text of field `f`.
    pub open spec fn get(&self, f: Field) -> Seq<char> {
        match f {
            Field::Date => self.date_str@,
            Field::Time => self.time_str@,
            Field::DigitizedDate => self.digitized_date_str@,
            Field::OffsetTime => self.offset_time_str@,
            Field::Latitude => self.latitude_str@,
            Field::Longitude => self.longitude_str@,
            Field::Altitude => self.altitude_str@,
            Field::Caption => self.caption_str@,
            Field::Credit => self.credit_str@,
            Field::City => self.city_str@,
            Field::State => self.state_str@,
            Field::Country => self.country_str@,
            Field::Sublocation => self.sublocation_str@,
            Field::People => self.people_str@,
        }
    }

    /// Every field is empty.
    pub open spec fn is_blank(&self) -> bool {
        forall|f: Field| #[trigger] self.get(f) == Seq::<char>::empty()
    }

    /// The two values hold the same text in every field.
    pub open spec fn same_as(&self, other: ExifFields) -> bool {
        forall|f: Field| #[trigger] self.get(f) == other.get(f)
    }

    /// All fields empty.
    pub fn blank() -> (r: ExifFields)
        ensures
            r.is_blank(),
    {
        ExifFields {
            date_str: String::new(),
            time_str: String::new(),
            digitized_date_str: String::new(),
            offset_time_str: String::new(),
            latitude_str: String::new(),
            longitude_str: String::new(),
            altitude_str: String::new(),
            caption_str: String::new(),
            credit_str: String::new(),
            city_str: String::new(),
            state_str: String::new(),
            country_str: String::new(),
            sublocation_str: String::new(),
            people_str: String::new(),
        }
    }

    /// A copy, field by field.
    pub fn copy(&self) -> (r: ExifFields)
        ensures
            r.same_as(*self),
    {
        ExifFields {
            date_str: self.date_str.clone(),
            time_str: self.time_str.clone(),
            digitized_date_str: self.digitized_date_str.clone(),
            offset_time_str: self.offset_time_str.clone(),
            latitude_str: self.latitude_str.clone(),
            longitude_str: self.longitude_str.clone(),
            altitude_str: self.altitude_str.clone(),
            caption_str: self.caption_str.clone(),
            credit_str: self.credit_str.clone(),
            city_str: self.city_str.clone(),
            state_str: self.state_str.clone(),
            country_str: self.country_str.clone(),
            sublocation_str: self.sublocation_str.clone(),
            people_str: self.people_str.clone(),
        }
    }

    /// The text of field `f`.
    pub fn field(&self, f: Field) -> (r: &String)
        ensures
            r@ == self.get(f),
    {
        match f {
            Field::Date => &self.date_str,
            Field::Time => &self.time_str,
            Field::DigitizedDate => &self.digitized_date_str,
            Field::OffsetTime => &self.offset_time_str,
            Field::Latitude => &self.latitude_str,
            Field::Longitude => &self.longitude_str,
            Field::Altitude => &self.altitude_str,
            Field::Caption => &self.caption_str,
            Field::Credit => &self.credit_str,
            Field::City => &self.city_str,
            Field::State => &self.state_str,
            Field::Country => &self.country_str,
            Field::Sublocation => &self.sublocation_str,
            Field::People => &self.people_str,
        }
    }

    /// Replaces the text of field `f` with `v`, leaving the others as they
    /// were.
    pub fn set_field(&mut self, f: Field, v: String)
        ensures
            final(self).get(f) == v@,
            forall|g: Field| g != f ==> #[trigger] final(self).get(g) == old(self).get(g),
    {
        match f {
            Field::Date => self.date_str = v,
            Field::Time => self.time_str = v,
            Field::DigitizedDate => self.digitized_date_str = v,
            Field::OffsetTime => self.offset_time_str = v,
            Field::Latitude => self.latitude_str = v,
            Field::Longitude => self.longitude_str = v,
            Field::Altitude => self.altitude_str = v,
            Field::Caption => self.caption_str = v,
            Field::Credit => self.credit_str = v,
            Field::City => self.city_str = v,
            Field::State => self.state_str = v,
            Field::Country => self.country_str = v,
            Field::Sublocation => self.sublocation_str = v,
            Field::People => self.people_str = v,
        }
    }

    /// Empties field `f` where it differs from that of `other`.
    fn keep_if_same(&mut self, other: &ExifFields, f: Field)
        ensures
            final(self).get(f) == (if old(self).get(f) == other.get(f) {
                old(self).get(f)
            } else {
                Seq::<char>::empty()
            }),
            forall|g: Field| g != f ==> #[trigger] final(self).get(g) == old(self).get(g),
    {
        if !(*self.field(f) == *other.field(f)) {
            self.set_field(f, String::new());
        }
    }

    /// Empties every field that differs from that of `other`.
    fn keep_common(&mut self, other: &ExifFields)
        ensures
            forall|f: Field| #[trigger] final(self).get(f) == (if old(self).get(f) == other.get(f) {
                old(self).get(f)
            } else {
                Seq::<char>::empty()
            }),
    {
        self.keep_if_same(other, Field::Date);
        self.keep_if_same(other, Field::Time);
        self.keep_if_same(other, Field::DigitizedDate);
        self.keep_if_same(other, Field::OffsetTime);
        self.keep_if_same(other, Field::Latitude);
        self.keep_if_same(other, Field::Longitude);
        self.keep_if_same(other, Field::Altitude);
        self.keep_if_same(other, Field::Caption);
        self.keep_if_same(other, Field::Credit);
        self.keep_if_same(other, Field::City);
        self.keep_if_same(other, Field::State);
        self.keep_if_same(other, Field::Country);
        self.keep_if_same(other, Field::Sublocation);
        self.keep_if_same(other, Field::People);
    }
}

impl Default for ExifFields {
    fn default() -> (r: ExifFields)
        ensures
            r.is_blank(),
    {
        ExifFields::blank()
    }
}

/// The value shown for a field across several photographs: the common
/// value where all of them agree, empty where they differ or where there
/// is no photograph.
pub open spec fn agreed(vals: Seq<Seq<char>>) -> Seq<char> {
    if vals.len() > 0 && forall|i: int| 0 <= i < vals.len() ==> #[trigger] vals[i] == vals[0] {
        vals[0]
    } else {
        Seq::empty()
    }
}

/// Adding one value to a non-empty list keeps the agreed value where the
/// new value equals it, and empties it otherwise.
pub proof fn lemma_agreed_step(s: Seq<Seq<char>>, t: Seq<Seq<char>>, v: Seq<char>)
    requires
        s.len() > 0,
        t == s.push(v),
    ensures
        agreed(t) == (if agreed(s) == v { agreed(s) } else { Seq::<char>::empty() }),
{
    assert(t[0] == s[0]);
    assert(t[s.len() as int] == v);
    if forall|i: int| 0 <= i < s.len() ==> #[trigger] s[i] == s[0] {
        if v == s[0] {
            assert forall|i: int| 0 <= i < t.len() implies #[trigger] t[i] == t[0] by {
                if i < s.len() {
                    assert(t[i] == s[i]);
                }
            }
        }
    } else {
        let k = choose|i: int| 0 <= i < s.len() && #[trigger] s[i] != s[0];
        assert(t[k] == s[k]);
    }
}

/// The values of field `f` across `list`.
pub open spec fn values_of(list: Seq<ExifFields>, f: Field) -> Seq<Seq<char>> {
    Seq::new(list.len(), |i: int| list[i].get(f))
}

/// `r` is the common view of `list`: each field agreed over the list.
pub open spec fn is_common_view(r: ExifFields, list: Seq<ExifFields>) -> bool {
    forall|f: Field| #[trigger] r.get(f) == agreed(values_of(list, f))
}

/// The fields common to every value of `list`: each field keeps its value
/// where all of them have it, and is empty otherwise; all fields are empty
/// when the list is.
pub fn common_fields(list: &Vec<ExifFields>) -> (r: ExifFields)
    ensures
        is_common_view(r, list@),
{
    if list.len() == 0 {
        let r = ExifFields::blank();
        assert forall|f: Field| #[trigger] r.get(f) == agreed(values_of(list@, f)) by {
            assert(r.get(f) == Seq::<char>::empty());
        }
        return r;
    }
    let mut common = list[0].copy();
    let mut n: usize = 1;
    while n < list.len()
        invariant
            1 <= n <= list.len(),
            forall|f: Field| #[trigger] common.get(f) == agreed(values_of(list@.take(n as int), f)),
        decreases list.len() - n,
    {
        let current = &list[n];
        common.keep_common(current);
        proof {
            assert forall|f: Field| #[trigger] common.get(f) == agreed(values_of(list@.take(n + 1), f)) by {
                assert(values_of(list@.take(n + 1), f) =~= values_of(list@.take(n as int), f).push(list@[n as int].get(f)));
                lemma_agreed_step(values_of(list@.take(n as int), f), values_of(list@.take(n + 1), f), list@[n as int].get(f));
            }
        }
        n = n + 1;
    }
    assert(list@.take(list.len() as int) =~= list@);
    common
}

/// `agreed` depends only on which values occur, when all of them agree.
proof fn lemma_agreed_one_way(s: Seq<Seq<char>>, t: Seq<Seq<char>>)
    requires
        forall|v: Seq<char>| s.contains(v) <==> t.contains(v),
        s.len() > 0,
        forall|i: int| 0 <= i < s.len() ==> #[trigger] s[i] == s[0],
    ensures
        agreed(t) == s[0],
{
    assert(s.contains(s[0]));
    assert(t.contains(s[0]));
    assert forall|i: int| 0 <= i < t.len() implies #[trigger] t[i] == t[0] by {
        assert(t.contains(t[i]));
        assert(s.contains(t[i]));
        let k = choose|k: int| 0 <= k < s.len() && s[k] == t[i];
        assert(t.contains(t[0]));
        assert(s.contains(t[0]));
        let m = choose|m: int| 0 <= m < s.len() && s[m] == t[0];
        assert(s[k] == s[0]);
        assert(s[m] == s[0]);
    }
    assert(t.contains(t[0]));
    assert(s.contains(t[0]));
    let m = choose|m: int| 0 <= m < s.len() && s[m] == t[0];
    assert(s[m] == s[0]);
}

/// `agreed` depends only on which values occur, not on their order or on
/// how often each occurs.
pub proof fn lemma_agreed_ignores_order(s: Seq<Seq<char>>, t: Seq<Seq<char>>)
    requires
        forall|v: Seq<char>| s.contains(v) <==> t.contains(v),
    ensures
        agreed(s) == agreed(t),
{
    if s.len() > 0 && forall|i: int| 0 <= i < s.len() ==> #[trigger] s[i] == s[0] {
        lemma_agreed_one_way(s, t);
    } else if t.len() > 0 && forall|i: int| 0 <= i < t.len() ==> #[trigger] t[i] == t[0] {
        lemma_agreed_one_way(t, s);
    }
}

/// `b` holds the same photographs' fields as `a`, up to order and repeats:
/// every value of each has the same fields as some value of the other.
pub open spec fn same_photographs(a: Seq<ExifFields>, b: Seq<ExifFields>) -> bool {
    &&& forall|i: int| 0 <= i < b.len() ==> exists|j: int| 0 <= j < a.len() && (#[trigger] b[i]).same_as(#[trigger] a[j])
    &&& forall|j: int| 0 <= j < a.len() ==> exists|i: int| 0 <= i < b.len() && (#[trigger] b[i]).same_as(#[trigger] a[j])
}

/// Selections that hold the same photographs hold the same values of each
/// field.
proof fn lemma_same_photographs_values(a: Seq<ExifFields>, b: Seq<ExifFields>, f: Field)
    requires
        same_photographs(a, b),
    ensures
        forall|v: Seq<char>| values_of(a, f).contains(v) <==> values_of(b, f).contains(v),
{
    let s = values_of(a, f);
    let t = values_of(b, f);
    assert forall|v: Seq<char>| s.contains(v) <==> t.contains(v) by {
        if s.contains(v) {
            let j = choose|j: int| 0 <= j < s.len() && s[j] == v;
            let i = choose|i: int| 0 <= i < b.len() && (#[trigger] b[i]).same_as(a[j]);
            assert(b[i].get(f) == a[j].get(f));
            assert(t[i] == v);
        }
        if t.contains(v) {
            let i = choose|i: int| 0 <= i < t.len() && t[i] == v;
            let j = choose|j: int| 0 <= j < a.len() && b[i].same_as(#[trigger] a[j]);
            assert(b[i].get(f) == a[j].get(f));
            assert(s[j] == v);
        }
    }
}

/// Law: the fields shown for a selection do not depend on the order in
/// which its photographs are read, nor on a photograph being read twice.
pub proof fn law_common_view_ignores_order(a: Seq<ExifFields>, b: Seq<ExifFields>, ra: ExifFields, rb: ExifFields)
    requires
        same_photographs(a, b),
        is_common_view(ra, a),
        is_common_view(rb, b),
    ensures
        ra.same_as(rb),
{
    assert forall|f: Field| #[trigger] ra.get(f) == rb.get(f) by {
        lemma_same_photographs_values(a, b, f);
        lemma_agreed_ignores_order(values_of(a, f), values_of(b, f));
    }
}

/// Law: adding one photograph `x` to a non-empty selection keeps each field
/// shown where `x` has that same value, and empties it otherwise; so adding
/// a photograph can only empty fields.  The larger selection may list its
/// photographs in any order, and `x` may already be among them.
pub proof fn law_common_view_add_one(
    list: Seq<ExifFields>,
    x: ExifFields,
    larger: Seq<ExifFields>,
    ra: ExifFields,
    rb: ExifFields,
)
    requires
        list.len() > 0,
        same_photographs(larger, list.push(x)),
        is_common_view(ra, list),
        is_common_view(rb, larger),
    ensures
        forall|f: Field| #[trigger] rb.get(f) == (if x.get(f) == ra.get(f) {
            ra.get(f)
        } else {
            Seq::<char>::empty()
        }),
        forall|f: Field| #[trigger] rb.get(f) == ra.get(f) || rb.get(f) == Seq::<char>::empty(),
{
    assert forall|f: Field| #[trigger] rb.get(f) == (if x.get(f) == ra.get(f) {
        ra.get(f)
    } else {
        Seq::<char>::empty()
    }) by {
        let pushed = list.push(x);
        lemma_same_photographs_values(larger, pushed, f);
        lemma_agreed_ignores_order(values_of(larger, f), values_of(pushed, f));
        assert(values_of(pushed, f) =~= values_of(list, f).push(x.get(f)));
        lemma_agreed_step(values_of(list, f), values_of(pushed, f), x.get(f));
    }
}

/// Law: a field is shown with a value exactly when every photograph of a
/// non-empty selection has that value; a selection of one photograph
/// shows its own fields.
pub proof fn law_common_view_is_agreement(list: Seq<ExifFields>, r: ExifFields, f: Field, v: Seq<char>)
    requires
        is_common_view(r, list),
        v.len() > 0,
    ensures
        r.get(f) == v <==> (list.len() > 0 && forall|i: int| 0 <= i < list.len() ==> #[trigger] list[i].get(f) == v),
        list.len() == 1 ==> r.get(f) == list[0].get(f),
{
    let s = values_of(list, f);
    assert(r.get(f) == agreed(s));
    if list.len() > 0 && forall|i: int| 0 <= i < list.len() ==> #[trigger] list[i].get(f) == v {
        assert forall|i: int| 0 <= i < s.len() implies #[trigger] s[i] == s[0] by {
            assert(list[i].get(f) == v);
            assert(list[0].get(f) == v);
        }
    }
    if r.get(f) == v {
        assert forall|i: int| 0 <= i < list.len() implies #[trigger] list[i].get(f) == v by {
            assert(s[i] == s[0]);
        }
    }
}


/// Law: each name of a field stands for the member of that name: the
/// date for `date_str`, the state for `state_str`, the country for
/// `country_str`, and so on for all fourteen.
pub proof fn law_field_is_its_member(x: ExifFields)
    ensures
        x.get(Field::Date) == x.date_str@,
        x.get(Field::Time) == x.time_str@,
        x.get(Field::DigitizedDate) == x.digitized_date_str@,
        x.get(Field::OffsetTime) == x.offset_time_str@,
        x.get(Field::Latitude) == x.latitude_str@,
        x.get(Field::Longitude) == x.longitude_str@,
        x.get(Field::Altitude) == x.altitude_str@,
        x.get(Field::Caption) == x.caption_str@,
        x.get(Field::Credit) == x.credit_str@,
        x.get(Field::City) == x.city_str@,
        x.get(Field::State) == x.state_str@,
        x.get(Field::Country) == x.country_str@,
        x.get(Field::Sublocation) == x.sublocation_str@,
        x.get(Field::People) == x.people_str@,
{
}

} // verus!
