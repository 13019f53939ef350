//! Reading single values and `rdf:Bag` lists out of an XMP packet.
//!
//! Both readers work on the packet as text, without an XML parser: they look
//! for the tag as an element (`<ns:Name>value</ns:Name>`) and, for single
//! values, as an attribute (`ns:Name="value"`).  A qualified tag is also
//! looked up by its local name (the part after the last `:`).

use vstd::prelude::*;
use crate::fields::{ExifFields, Field};
use crate::text::{
    chars_of, contains_char, find, find_from, slice_chars, string_of, trim, trim_bounds,
};

verus! {

broadcast use vstd::string::group_string_axioms;

/// The local part of a tag name: what follows its last `:` (all of it
/// when there is none).
pub open spec fn local_name(tag: Seq<char>) -> Seq<char>
    decreases tag.len(),
{
    if tag.len() == 0 {
        tag
    } else if tag.last() == ':' {
        Seq::empty()
    } else {
        local_name(tag.drop_last()).push(tag.last())
    }
}

/// The value enclosed between the end of the opening tag and `close`, when
/// `close` follows, the trimmed value is not empty and holds no `<`.
pub open spec fn closed_value(after: Seq<char>, close: Seq<char>) -> Option<Seq<char>> {
    match find(after, close) {
        Some(end) => {
            let v = trim(after.take(end));
            if v.len() > 0 && !v.contains('<') {
                Some(v)
            } else {
                None
            }
        },
        None => None,
    }
}

/// The value of the first element opened by `open`, closed by `close1`
/// or else by `close2`.
pub open spec fn element_value(x: Seq<char>, open: Seq<char>, close1: Seq<char>, close2: Seq<char>) -> Option<Seq<char>> {
    match find(x, open) {
        Some(start) => match find(x.skip(start), seq!['>']) {
            Some(gt) => {
                let after = x.skip(start + gt + 1);
                match closed_value(after, close1) {
                    Some(v) => Some(v),
                    None => closed_value(after, close2),
                }
            },
            None => None,
        },
        None => None,
    }
}

/// The first occurrence of the attribute prefix `pat` (`name=`) ends the
/// packet, so there is no character left to read a quote from.
pub open spec fn attribute_at_end(x: Seq<char>, pat: Seq<char>) -> bool {
    match find(x, pat) {
        Some(start) => start + pat.len() == x.len(),
        None => false,
    }
}

/// The trimmed, quoted value that follows the first occurrence of `pat`.
pub open spec fn attribute_value(x: Seq<char>, pat: Seq<char>) -> Option<Seq<char>> {
    match find(x, pat) {
        Some(start) => {
            let rest = x.skip(start + pat.len());
            if rest.len() > 0 && (rest[0] == '"' || rest[0] == '\'') {
                match find(rest.skip(1), seq![rest[0]]) {
                    Some(end) => Some(trim(rest.subrange(1, 1 + end))),
                    None => None,
                }
            } else {
                None
            }
        },
        None => None,
    }
}

/// The opening of an element: `<` and the name.
pub open spec fn open_pattern(name: Seq<char>) -> Seq<char> {
    seq!['<'] + name
}

/// The closing tag of an element: `</name>`.
pub open spec fn close_pattern(name: Seq<char>) -> Seq<char> {
    seq!['<', '/'] + name + seq!['>']
}

/// The start of an attribute: the name and `=`.
pub open spec fn attribute_pattern(name: Seq<char>) -> Seq<char> {
    name + seq!['=']
}

/// The element value of `tag`, looked up by its full and then its local
/// name.
pub open spec fn tag_element_value(x: Seq<char>, tag: Seq<char>, open: Seq<char>) -> Option<Seq<char>> {
    element_value(x, open, close_pattern(tag), close_pattern(local_name(tag)))
}

/// The value that [`parse_xmp_tag`] reads for `tag` out of `x`: the first
/// element value found (full name, then local name), else the first
/// attribute value found (full name, then local name), else empty.
pub open spec fn xmp_tag_value(x: Seq<char>, tag: Seq<char>) -> Seq<char> {
    let raw = local_name(tag);
    match tag_element_value(x, tag, open_pattern(tag)) {
        Some(v) => v,
        None => match tag_element_value(x, tag, open_pattern(raw)) {
            Some(v) => v,
            None => match attribute_value(x, attribute_pattern(tag)) {
                Some(v) => v,
                None => match attribute_value(x, attribute_pattern(raw)) {
                    Some(v) => v,
                    None => Seq::empty(),
                },
            },
        },
    }
}

/// The inputs on which the lookup of [`xmp_tag_value`] runs off the end of
/// the packet: no element value is found and the attribute looked at next
/// ends the packet.
pub open spec fn xmp_tag_lookup_fails(x: Seq<char>, tag: Seq<char>) -> bool {
    let raw = local_name(tag);
    &&& tag_element_value(x, tag, open_pattern(tag)) is None
    &&& tag_element_value(x, tag, open_pattern(raw)) is None
    &&& (attribute_at_end(x, attribute_pattern(tag)) || (attribute_value(x, attribute_pattern(tag)) is None
        && attribute_at_end(x, attribute_pattern(raw))))
}

/// The local name of a tag.
pub fn local_name_of(tag: &Vec<char>) -> (r: Vec<char>)
    ensures
        r@ == local_name(tag@),
{
    let mut j: usize = tag.len();
    assert(tag@.take(j as int) =~= tag@);
    assert(local_name(tag@) + tag@.subrange(j as int, j as int) =~= local_name(tag@));
    while j > 0 && tag[j - 1] != ':'
        invariant
            j <= tag.len(),
            local_name(tag@) == local_name(tag@.take(j as int)) + tag@.subrange(j as int, tag.len() as int),
        decreases j,
    {
        assert(tag@.take(j as int).drop_last() =~= tag@.take(j - 1));
        assert(tag@.take(j as int).last() == tag@[j - 1]);
        assert(local_name(tag@.take(j - 1)).push(tag@[j - 1]) + tag@.subrange(j as int, tag.len() as int)
            =~= local_name(tag@.take(j - 1)) + tag@.subrange(j - 1, tag.len() as int));
        j = j - 1;
    }
    proof {
        if j > 0 {
            assert(tag@.take(j as int).last() == ':');
        } else {
            assert(tag@.take(0) =~= Seq::<char>::empty());
        }
        assert(local_name(tag@.take(j as int)) =~= Seq::<char>::empty());
        assert(Seq::<char>::empty() + tag@.subrange(j as int, tag.len() as int) =~= tag@.subrange(j as int, tag.len() as int));
    }
    slice_chars(tag, j, tag.len())
}

fn prefixed(c: char, name: &Vec<char>) -> (r: Vec<char>)
    ensures
        r@ == seq![c] + name@,
{
    let mut r: Vec<char> = Vec::new();
    r.push(c);
    let mut i: usize = 0;
    while i < name.len()
        invariant
            i <= name.len(),
            r@ == seq![c] + name@.take(i as int),
        decreases name.len() - i,
    {
        r.push(name[i]);
        assert(name@.take(i + 1) =~= name@.take(i as int).push(name@[i as int]));
        i = i + 1;
    }
    assert(name@.take(name.len() as int) =~= name@);
    r
}

fn closing(name: &Vec<char>) -> (r: Vec<char>)
    ensures
        r@ == close_pattern(name@),
{
    let mut r = prefixed('/', name);
    r.insert(0, '<');
    r.push('>');
    assert(r@ =~= close_pattern(name@));
    r
}

fn attribute(name: &Vec<char>) -> (r: Vec<char>)
    ensures
        r@ == attribute_pattern(name@),
{
    let mut r = prefixed('=', name);
    let c = r.remove(0);
    r.push(c);
    assert(r@ =~= attribute_pattern(name@));
    r
}

/// Bounds in `x` of the value enclosed by `x[from..]` and `close`.
fn closed_value_bounds(x: &Vec<char>, from: usize, close: &Vec<char>) -> (r: Option<(usize, usize)>)
    requires
        from <= x.len(),
    ensures
        match closed_value(x@.skip(from as int), close@) {
            Some(v) => r matches Some((lo, hi)) && lo <= hi <= x.len() && x@.subrange(lo as int, hi as int) == v,
            None => r is None,
        },
{
    let ghost after = x@.skip(from as int);
    assert(after =~= x@.subrange(from as int, x.len() as int));
    match find_from(x, from, close) {
        Some(end) => {
            let (lo, hi) = trim_bounds(x, from, end);
            assert(after.take(end - from) =~= x@.subrange(from as int, end as int));
            let has_lt = contains_char(x, lo, hi, '<');
            if lo < hi && !has_lt {
                Some((lo, hi))
            } else {
                None
            }
        },
        None => None,
    }
}

/// Bounds in `x` of [`element_value`].
fn element_value_bounds(x: &Vec<char>, open: &Vec<char>, close1: &Vec<char>, close2: &Vec<char>) -> (r: Option<(usize, usize)>)
    ensures
        match element_value(x@, open@, close1@, close2@) {
            Some(v) => r matches Some((lo, hi)) && lo <= hi <= x.len() && x@.subrange(lo as int, hi as int) == v,
            None => r is None,
        },
{
    assert(x@.subrange(0, x.len() as int) =~= x@);
    match find_from(x, 0, open) {
        Some(start) => {
            let gt_pat = vec!['>'];
            assert(gt_pat@ =~= seq!['>']);
            assert(x@.skip(start as int) =~= x@.subrange(start as int, x.len() as int));
            match find_from(x, start, &gt_pat) {
                Some(gt) => {
                    let from = gt + 1;
                    assert(x@.skip(start as int).skip(gt - start + 1) =~= x@.skip(from as int));
                    match closed_value_bounds(x, from, close1) {
                        Some(b) => Some(b),
                        None => closed_value_bounds(x, from, close2),
                    }
                },
                None => None,
            }
        },
        None => None,
    }
}

/// What the attribute lookup for one pattern found.
enum AttributeProbe {
    Missing,
    AtEnd,
    Value(usize, usize),
}

fn attribute_probe(x: &Vec<char>, pat: &Vec<char>) -> (r: AttributeProbe)
    ensures
        r is AtEnd <==> attribute_at_end(x@, pat@),
        match attribute_value(x@, pat@) {
            Some(v) => r matches AttributeProbe::Value(lo, hi) && lo <= hi <= x.len() && x@.subrange(lo as int, hi as int) == v,
            None => !(r is Value),
        },
{
    assert(x@.subrange(0, x.len() as int) =~= x@);
    match find_from(x, 0, pat) {
        Some(start) => {
            let rest = start + pat.len();
            let ghost rs = x@.skip(rest as int);
            if rest == x.len() {
                return AttributeProbe::AtEnd;
            }
            let q = x[rest];
            assert(rs[0] == q);
            if q == '"' || q == '\'' {
                let qp = vec![q];
                assert(qp@ =~= seq![q]);
                assert(rs.skip(1) =~= x@.subrange(rest + 1, x.len() as int));
                match find_from(x, rest + 1, &qp) {
                    Some(end) => {
                        let (lo, hi) = trim_bounds(x, rest + 1, end);
                        assert(rs.subrange(1, 1 + (end - rest - 1)) =~= x@.subrange(rest + 1, end as int));
                        AttributeProbe::Value(lo, hi)
                    },
                    None => AttributeProbe::Missing,
                }
            } else {
                AttributeProbe::Missing
            }
        },
        None => AttributeProbe::Missing,
    }
}

/// What the whole tag lookup found.
enum TagLookup {
    Found(usize, usize),
    Empty,
    RunsOff,
}

fn lookup_tag(x: &Vec<char>, tag: &Vec<char>) -> (r: TagLookup)
    ensures
        r is RunsOff <==> xmp_tag_lookup_fails(x@, tag@),
        r matches TagLookup::Found(lo, hi) ==> lo <= hi <= x.len() && x@.subrange(lo as int, hi as int) == xmp_tag_value(x@, tag@),
        r is Empty ==> xmp_tag_value(x@, tag@) == Seq::<char>::empty(),
{
    let raw = local_name_of(tag);
    let close1 = closing(tag);
    let close2 = closing(&raw);
    let open1 = prefixed('<', tag);
    if let Some((lo, hi)) = element_value_bounds(x, &open1, &close1, &close2) {
        return TagLookup::Found(lo, hi);
    }
    let open2 = prefixed('<', &raw);
    if let Some((lo, hi)) = element_value_bounds(x, &open2, &close1, &close2) {
        return TagLookup::Found(lo, hi);
    }
    let attr1 = attribute(tag);
    match attribute_probe(x, &attr1) {
        AttributeProbe::Value(lo, hi) => {
            return TagLookup::Found(lo, hi);
        },
        AttributeProbe::AtEnd => {
            return TagLookup::RunsOff;
        },
        AttributeProbe::Missing => {},
    }
    let attr2 = attribute(&raw);
    match attribute_probe(x, &attr2) {
        AttributeProbe::Value(lo, hi) => TagLookup::Found(lo, hi),
        AttributeProbe::AtEnd => TagLookup::RunsOff,
        AttributeProbe::Missing => TagLookup::Empty,
    }
}

/// Reads the value of `tag_name` (such as `photoshop:City`) out of an XMP
/// packet; empty when the packet holds none.
pub fn parse_xmp_tag(xmp: &str, tag_name: &str) -> (r: String)
    requires
        !xmp_tag_lookup_fails(xmp@, tag_name@),
    ensures
        r@ == xmp_tag_value(xmp@, tag_name@),
{
    let x = chars_of(xmp);
    let t = chars_of(tag_name);
    match lookup_tag(&x, &t) {
        TagLookup::Found(lo, hi) => {
            let v = slice_chars(&x, lo, hi);
            string_of(&v)
        },
        _ => String::new(),
    }
}

/// Whether [`parse_xmp_tag`] would run off the end of `xmp` looking for
/// `tag_name` (see [`xmp_tag_lookup_fails`]).
pub fn parse_xmp_tag_runs_off(xmp: &str, tag_name: &str) -> (b: bool)
    ensures
        b == xmp_tag_lookup_fails(xmp@, tag_name@),
{
    let x = chars_of(xmp);
    let t = chars_of(tag_name);
    match lookup_tag(&x, &t) {
        TagLookup::RunsOff => true,
        _ => false,
    }
}

/// The opening of a list item.
pub open spec fn item_open() -> Seq<char> {
    seq!['<', 'r', 'd', 'f', ':', 'l', 'i']
}

/// The closing tag of a list item.
pub open spec fn item_close() -> Seq<char> {
    seq!['<', '/', 'r', 'd', 'f', ':', 'l', 'i', '>']
}

/// The separator that [`parse_xmp_bag`] puts between items.
pub open spec fn item_separator() -> Seq<char> {
    seq![',', ' ']
}

/// `items` with `sep` between each two of them.
pub open spec fn join(items: Seq<Seq<char>>, sep: Seq<char>) -> Seq<char>
    decreases items.len(),
{
    if items.len() == 0 {
        Seq::empty()
    } else if items.len() == 1 {
        items[0]
    } else {
        join(items.drop_last(), sep) + sep + items.last()
    }
}

/// Where the bag of `tag` starts: the first `<tag`, or else the first
/// `<local-name`.
pub open spec fn bag_start(x: Seq<char>, tag: Seq<char>) -> Option<int> {
    match find(x, open_pattern(tag)) {
        Some(s) => Some(s),
        None => find(x, open_pattern(local_name(tag))),
    }
}

/// The non-empty trimmed list items of `sub` from index `idx` on: each
/// item runs from the `>` that ends its `<rdf:li` to the next `</rdf:li>`;
/// the scan stops at the first item that is not complete.
pub open spec fn bag_items(sub: Seq<char>, idx: int) -> Seq<Seq<char>>
    decreases sub.len() - idx,
{
    if idx < 0 || idx > sub.len() {
        Seq::empty()
    } else {
        match find(sub.skip(idx), item_open()) {
            Some(ls) => {
                let a = idx + ls;
                match find(sub.skip(a), seq!['>']) {
                    Some(gt) => {
                        let vs = a + gt + 1;
                        match find(sub.skip(vs), item_close()) {
                            Some(le) => {
                                let v = trim(sub.subrange(vs, vs + le));
                                let rest = bag_items(sub, vs + le);
                                if v.len() > 0 {
                                    seq![v] + rest
                                } else {
                                    rest
                                }
                            },
                            None => Seq::empty(),
                        }
                    },
                    None => Seq::empty(),
                }
            },
            None => Seq::empty(),
        }
    }
}

/// The value that [`parse_xmp_bag`] reads for `tag` out of `x`: the items
/// of its bag joined by `", "`, empty when there is no bag or no item.
pub open spec fn xmp_bag_value(x: Seq<char>, tag: Seq<char>) -> Seq<char> {
    match bag_start(x, tag) {
        Some(s) => join(bag_items(x.skip(s), 0), item_separator()),
        None => Seq::empty(),
    }
}

fn literal_chars(s: &str) -> (v: Vec<char>)
    ensures
        v@ == s@,
{
    chars_of(s)
}

/// The items of [`bag_items`]`(sub, 0)`.
fn collect_bag_items(sub: &Vec<char>) -> (r: Vec<Vec<char>>)
    ensures
        r@.len() == bag_items(sub@, 0).len(),
        forall|i: int| 0 <= i < r@.len() ==> #[trigger] r@[i]@ == bag_items(sub@, 0)[i],
{
    let li_open = literal_chars("<rdf:li");
    let li_close = literal_chars("</rdf:li>");
    proof {
        reveal_strlit("<rdf:li");
        reveal_strlit("</rdf:li>");
        assert(li_open@ =~= item_open());
        assert(li_close@ =~= item_close());
    }
    let gt_pat = vec!['>'];
    assert(gt_pat@ =~= seq!['>']);
    let mut items: Vec<Vec<char>> = Vec::new();
    let ghost mut got: Seq<Seq<char>> = Seq::empty();
    let mut idx: usize = 0;
    loop
        invariant
            idx <= sub.len(),
            li_open@ == item_open(),
            li_close@ == item_close(),
            gt_pat@ == seq!['>'],
            items@.len() == got.len(),
            forall|i: int| 0 <= i < got.len() ==> #[trigger] items@[i]@ == got[i],
            got + bag_items(sub@, idx as int) == bag_items(sub@, 0),
        decreases sub.len() - idx,
    {
        assert(sub@.skip(idx as int) =~= sub@.subrange(idx as int, sub.len() as int));
        let a = match find_from(sub, idx, &li_open) {
            Some(a) => a,
            None => {
                assert(got + Seq::<Seq<char>>::empty() =~= got);
                return items;
            },
        };
        assert(sub@.skip(a as int) =~= sub@.subrange(a as int, sub.len() as int));
        let gt = match find_from(sub, a, &gt_pat) {
            Some(gt) => gt,
            None => {
                assert(got + Seq::<Seq<char>>::empty() =~= got);
                return items;
            },
        };
        let vs = gt + 1;
        assert(sub@.skip(vs as int) =~= sub@.subrange(vs as int, sub.len() as int));
        let le = match find_from(sub, vs, &li_close) {
            Some(le) => le,
            None => {
                assert(got + Seq::<Seq<char>>::empty() =~= got);
                return items;
            },
        };
        let (lo, hi) = trim_bounds(sub, vs, le);
        let ghost v = sub@.subrange(lo as int, hi as int);
        if lo < hi {
            let item = slice_chars(sub, lo, hi);
            items.push(item);
            proof {
                assert(got.push(v) + bag_items(sub@, le as int) =~= got + (seq![v] + bag_items(sub@, le as int)));
                got = got.push(v);
            }
        }
        idx = le;
    }
}

/// Joins the items with `", "`.
fn join_items(items: &Vec<Vec<char>>, Ghost(views): Ghost<Seq<Seq<char>>>) -> (r: Vec<char>)
    requires
        items@.len() == views.len(),
        forall|i: int| 0 <= i < views.len() ==> #[trigger] items@[i]@ == views[i],
    ensures
        r@ == join(views, item_separator()),
{
    let mut r: Vec<char> = Vec::new();
    let mut i: usize = 0;
    while i < items.len()
        invariant
            i <= items.len(),
            items@.len() == views.len(),
            forall|k: int| 0 <= k < views.len() ==> #[trigger] items@[k]@ == views[k],
            r@ == join(views.take(i as int), item_separator()),
        decreases items.len() - i,
    {
        if i > 0 {
            r.push(',');
            r.push(' ');
        }
        let item = &items[i];
        let mut k: usize = 0;
        let ghost base = r@;
        while k < item.len()
            invariant
                k <= item.len(),
                r@ == base + item@.take(k as int),
            decreases item.len() - k,
        {
            r.push(item[k]);
            assert(item@.take(k + 1) =~= item@.take(k as int).push(item@[k as int]));
            k = k + 1;
        }
        proof {
            assert(item@.take(item.len() as int) =~= item@);
            let t = views.take(i + 1);
            assert(t.drop_last() =~= views.take(i as int));
            assert(t.last() == views[i as int]);
            if i == 0 {
                assert(r@ =~= join(t, item_separator()));
            } else {
                assert(r@ =~= join(t, item_separator()));
            }
        }
        i = i + 1;
    }
    assert(views.take(items.len() as int) =~= views);
    r
}

/// Reads the items of the `rdf:Bag` of `tag_name` (such as `dc:subject`)
/// out of an XMP packet, joined by `", "`; empty when there are none.
pub fn parse_xmp_bag(xmp: &str, tag_name: &str) -> (r: String)
    ensures
        r@ == xmp_bag_value(xmp@, tag_name@),
{
    let x = chars_of(xmp);
    let t = chars_of(tag_name);
    let raw = local_name_of(&t);
    let open1 = prefixed('<', &t);
    let open2 = prefixed('<', &raw);
    assert(x@.subrange(0, x.len() as int) =~= x@);
    let start = match find_from(&x, 0, &open1) {
        Some(s) => Some(s),
        None => find_from(&x, 0, &open2),
    };
    match start {
        Some(s) => {
            let sub = slice_chars(&x, s, x.len());
            assert(sub@ =~= x@.skip(s as int));
            let items = collect_bag_items(&sub);
            let joined = join_items(&items, Ghost(bag_items(sub@, 0)));
            string_of(&joined)
        },
        None => String::new(),
    }
}

/// The lookups that reading a packet into the edit form makes run off
/// its end (see [`xmp_tag_lookup_fails`]).
pub open spec fn xmp_fields_lookup_fails(x: Seq<char>) -> bool {
    ||| xmp_tag_lookup_fails(x, "photoshop:City"@)
    ||| xmp_tag_lookup_fails(x, "photoshop:State"@)
    ||| xmp_tag_lookup_fails(x, "photoshop:Country"@)
    ||| xmp_tag_lookup_fails(x, "iptcCore:Location"@)
}

/// Whether reading `xmp` into the edit form would run off its end.
pub fn xmp_fields_lookup_runs_off(xmp: &str) -> (b: bool)
    ensures
        b == xmp_fields_lookup_fails(xmp@),
{
    parse_xmp_tag_runs_off(xmp, "photoshop:City") || parse_xmp_tag_runs_off(xmp, "photoshop:State")
        || parse_xmp_tag_runs_off(xmp, "photoshop:Country") || parse_xmp_tag_runs_off(xmp, "iptcCore:Location")
}

/// Reads the location and the people of an XMP packet into the fields:
/// city, state, country, sub-location and the people of `dc:subject`.
pub fn read_xmp_fields(fields: &mut ExifFields, xmp: &str)
    requires
        !xmp_fields_lookup_fails(xmp@),
    ensures
        final(fields).city_str@ == xmp_tag_value(xmp@, "photoshop:City"@),
        final(fields).state_str@ == xmp_tag_value(xmp@, "photoshop:State"@),
        final(fields).country_str@ == xmp_tag_value(xmp@, "photoshop:Country"@),
        final(fields).sublocation_str@ == xmp_tag_value(xmp@, "iptcCore:Location"@),
        final(fields).people_str@ == xmp_bag_value(xmp@, "dc:subject"@),
        forall|f: Field| f != Field::City && f != Field::State && f != Field::Country && f != Field::Sublocation
            && f != Field::People ==> #[trigger] final(fields).get(f) == old(fields).get(f),
{
    fields.city_str = parse_xmp_tag(xmp, "photoshop:City");
    fields.state_str = parse_xmp_tag(xmp, "photoshop:State");
    fields.country_str = parse_xmp_tag(xmp, "photoshop:Country");
    fields.sublocation_str = parse_xmp_tag(xmp, "iptcCore:Location");
    fields.people_str = parse_xmp_bag(xmp, "dc:subject");
}

} // verus!
