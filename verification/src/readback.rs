//! Reading back what "Apply" writes: the values that the XMP packet and
//! the EXIF tags were written with come back out of them.
//!
//! The packet is read as text (see [`crate::xmp`]), so the proofs work out
//! where each search lands in it: the fixed parts of the packet are
//! checked once for where they hold `<`, `>` and `=`, and the values in
//! between are kept free of `<`.

use vstd::prelude::*;
use crate::container::{
    ChunkModel, first_marker, first_marker_at, itxt_kind, lemma_first_marker_is, marker_at,
    png_chunk_xmp, png_decode, png_keyword, png_with_xmp, png_xmp, png_xmp_payload, xmpmeta_open,
    law_png_packet_read_back, SegmentModel, jpeg_decode, jpeg_with_xmp, jpeg_xmp, jpeg_xmp_payload, law_jpeg_packet_read_back,
};
use crate::exif::{
    EditView, RationalTag, TextTag, exif_field_value, lemma_edits_after_concat, rationals_after,
    texts_after,
};
use crate::fields::{ExifFields, Field};
use crate::plan::{
    after_city, after_country, after_location, after_state, altitude_edits, chosen_value,
    date_time_edit, packet_head, packet_tail, people_items, person_item, planned_exif_edits,
    planned_packet, text_edit, xmp_packet,
};
use crate::text::{
    find, lemma_find_is, lemma_find_none, lemma_find_past, lemma_occurs_shift, lemma_starts_past_concat,
    lemma_starts_past_without, lemma_trim_contains, lemma_trim_idempotent, lemma_words_of_two,
    occurs_at, single_word, starts_past, trim, decimal, parse_u32_spec,
};
use crate::xmp::{
    attribute_at_end, attribute_value, bag_start, element_value, attribute_pattern, bag_items, close_pattern, closed_value, local_name, item_close, item_open, item_separator, join, open_pattern,
    tag_element_value, xmp_bag_value, xmp_fields_lookup_fails, xmp_tag_value,
};

verus! {

/// None of `<`, `>` and `=` occurs in `s[from..to]`, which is ASCII.
pub open spec fn marks_free(s: Seq<char>, from: int, to: int) -> bool
    decreases to - from,
{
    if from >= to {
        true
    } else {
        s[from] != '<' && s[from] != '>' && s[from] != '=' && '\0' <= s[from] <= '\u{7f}' && marks_free(s, from + 1, to)
    }
}

/// What `marks_free` says, position by position.
#[verifier::spinoff_prover]
proof fn lemma_marks_free(s: Seq<char>, from: int, to: int)
    requires
        marks_free(s, from, to),
    ensures
        forall|j: int| from <= j < to ==> #[trigger] s[j] != '<' && s[j] != '>' && s[j] != '=' && '\0' <= s[j] <= '\u{7f}',
    decreases to - from,
{
    if from < to {
        lemma_marks_free(s, from + 1, to);
    }
}

/// Laid over `a` at `j`, some character of `p` from its `i`-th on differs
/// from `a` before `a` ends.
pub open spec fn differs_within(a: Seq<char>, p: Seq<char>, j: int, i: int) -> bool
    decreases p.len() - i,
{
    if i < 0 || i >= p.len() || j + i < 0 || j + i >= a.len() {
        false
    } else if a[j + i] != p[i] {
        true
    } else {
        differs_within(a, p, j, i + 1)
    }
}

/// Where the pattern differs from `a` at `j`, it does not occur there.
#[verifier::spinoff_prover]
proof fn lemma_differs_within(a: Seq<char>, b: Seq<char>, p: Seq<char>, j: int, i: int)
    requires
        differs_within(a, p, j, i),
    ensures
        !occurs_at(a + b, p, j),
    decreases p.len() - i,
{
    if a[j + i] != p[i] {
        if occurs_at(a + b, p, j) {
            assert((a + b).subrange(j, j + p.len())[i] == p[i]);
        }
    } else {
        lemma_differs_within(a, b, p, j, i + 1);
    }
}

/// A pattern that opens with `<` starts nowhere before `to` in `a` when it
/// differs from `a` at each `<` there.
#[verifier::spinoff_prover]
proof fn lemma_starts_past_tags(a: Seq<char>, b: Seq<char>, p: Seq<char>, to: int)
    requires
        p.len() > 0,
        p[0] == '<',
        to <= a.len(),
        forall|j: int| 0 <= j < to && a[j] == '<' ==> differs_within(a, p, j, 0),
    ensures
        forall|j: int| 0 <= j < to ==> !#[trigger] occurs_at(a + b, p, j),
{
    assert forall|j: int| 0 <= j < to implies !#[trigger] occurs_at(a + b, p, j) by {
        if a[j] == '<' {
            lemma_differs_within(a, b, p, j, 0);
        } else if occurs_at(a + b, p, j) {
            assert((a + b).subrange(j, j + p.len())[0] == p[0]);
        }
    }
}

/// Where the head of the packet holds `<`, `>` and `=`, and the tags there.
#[verifier::spinoff_prover]
proof fn lemma_head_marks()
    ensures
        packet_head().len() == 411,
        forall|j: int| 0 <= j < 411 && packet_head()[j] == '<' ==> j == 0 || j == 51 || j == 123 || j == 191 || j == 395,
        forall|j: int| 0 <= j < 411 && packet_head()[j] == '>' ==> j == 49 || j == 120 || j == 187 || j == 390 || j == 410,
        forall|j: int| 0 <= j < 411 && packet_head()[j] == '=' ==> j == 15 || j == 21 || j == 69 || j == 94 || j == 141 || j == 217 || j == 240 || j == 296 || j == 355,
        forall|q: int| 0 <= q < 411 && packet_head()[q] == '=' && q + 1 >= 5 ==> differs_within(packet_head(), "City"@ + seq!['='], q + 1 - 5, 0),
        forall|q: int| 0 <= q < 411 && packet_head()[q] == '=' && q + 1 >= 6 ==> differs_within(packet_head(), "State"@ + seq!['='], q + 1 - 6, 0),
        forall|q: int| 0 <= q < 411 && packet_head()[q] == '=' && q + 1 >= 8 ==> differs_within(packet_head(), "Country"@ + seq!['='], q + 1 - 8, 0),
        forall|q: int| 0 <= q < 411 && packet_head()[q] == '=' && q + 1 >= 9 ==> differs_within(packet_head(), "Location"@ + seq!['='], q + 1 - 9, 0),
        packet_head()[0] == '<',
        packet_head()[1] == '?',
        packet_head()[2] == 'x',
        packet_head()[3] == 'p',
        packet_head()[4] == 'a',
        packet_head()[5] == 'c',
        packet_head()[6] == 'k',
        packet_head()[51] == '<',
        packet_head()[52] == 'x',
        packet_head()[53] == ':',
        packet_head()[54] == 'x',
        packet_head()[55] == 'm',
        packet_head()[56] == 'p',
        packet_head()[57] == 'm',
        packet_head()[58] == 'e',
        packet_head()[59] == 't',
        packet_head()[60] == 'a',
        packet_head()[61] == ' ',
        packet_head()[62] == 'x',
        packet_head()[63] == 'm',
        packet_head()[64] == 'l',
        packet_head()[65] == 'n',
        packet_head()[66] == 's',
        packet_head()[67] == ':',
        packet_head()[68] == 'x',
        packet_head()[69] == '=',
        packet_head()[70] == '"',
        forall|j: int| 0 <= j < 411 ==> '\0' <= #[trigger] packet_head()[j] <= '\u{7f}',
        packet_head()[123] == '<',
        packet_head()[124] == 'r',
        packet_head()[125] == 'd',
        packet_head()[126] == 'f',
        packet_head()[127] == ':',
        packet_head()[128] == 'R',
        packet_head()[129] == 'D',
        packet_head()[191] == '<',
        packet_head()[192] == 'r',
        packet_head()[193] == 'd',
        packet_head()[194] == 'f',
        packet_head()[195] == ':',
        packet_head()[196] == 'D',
        packet_head()[197] == 'e',
        packet_head()[395] == '<',
        packet_head()[396] == 'p',
        packet_head()[397] == 'h',
        packet_head()[398] == 'o',
        packet_head()[399] == 't',
        packet_head()[400] == 'o',
        packet_head()[401] == 's',
        packet_head()[402] == 'h',
        packet_head()[403] == 'o',
        packet_head()[404] == 'p',
        packet_head()[405] == ':',
        packet_head()[406] == 'C',
        packet_head()[407] == 'i',
        packet_head()[408] == 't',
        packet_head()[409] == 'y',
        packet_head()[410] == '>',
{
    reveal_strlit("<?xpacket begin=\"\" id=\"W5M0MpCehiHzreSzNTczkc9d\"?>\n<x:xmpmeta xmlns:x=\"adobe:ns:meta/\" x:xmptk=\"Adobe XMP Core 5.6-c140\">\n <rdf:RDF xmlns:rdf=\"http://www.w3.org/1999/02/22-rdf-syntax-ns#\">\n  <rdf:Description rdf:about=\"\"\n    xmlns:photoshop=\"http://ns.adobe.com/photoshop/1.0/\"\n    xmlns:iptcCore=\"http://iptc.org/std/Iptc4xmpCore/1.0/xmlns/\"\n    xmlns:dc=\"http://purl.org/dc/elements/1.1/\">\n   <photoshop:City>");
    let s = packet_head();
    assert(marks_free(s, 1, 15)) by {
        reveal_with_fuel(marks_free, 15);
    }
    lemma_marks_free(s, 1, 15);
    assert(marks_free(s, 16, 21)) by {
        reveal_with_fuel(marks_free, 6);
    }
    lemma_marks_free(s, 16, 21);
    assert(marks_free(s, 22, 49)) by {
        reveal_with_fuel(marks_free, 28);
    }
    lemma_marks_free(s, 22, 49);
    assert(marks_free(s, 50, 51)) by {
        reveal_with_fuel(marks_free, 2);
    }
    lemma_marks_free(s, 50, 51);
    assert(marks_free(s, 52, 69)) by {
        reveal_with_fuel(marks_free, 18);
    }
    lemma_marks_free(s, 52, 69);
    assert(marks_free(s, 70, 94)) by {
        reveal_with_fuel(marks_free, 25);
    }
    lemma_marks_free(s, 70, 94);
    assert(marks_free(s, 95, 120)) by {
        reveal_with_fuel(marks_free, 26);
    }
    lemma_marks_free(s, 95, 120);
    assert(marks_free(s, 121, 123)) by {
        reveal_with_fuel(marks_free, 3);
    }
    lemma_marks_free(s, 121, 123);
    assert(marks_free(s, 124, 141)) by {
        reveal_with_fuel(marks_free, 18);
    }
    lemma_marks_free(s, 124, 141);
    assert(marks_free(s, 157, 187)) by {
        reveal_with_fuel(marks_free, 31);
    }
    assert(marks_free(s, 142, 187)) by {
        reveal_with_fuel(marks_free, 16);
    }
    lemma_marks_free(s, 142, 187);
    assert(marks_free(s, 188, 191)) by {
        reveal_with_fuel(marks_free, 4);
    }
    lemma_marks_free(s, 188, 191);
    assert(marks_free(s, 192, 217)) by {
        reveal_with_fuel(marks_free, 26);
    }
    lemma_marks_free(s, 192, 217);
    assert(marks_free(s, 218, 240)) by {
        reveal_with_fuel(marks_free, 23);
    }
    lemma_marks_free(s, 218, 240);
    assert(marks_free(s, 266, 296)) by {
        reveal_with_fuel(marks_free, 31);
    }
    assert(marks_free(s, 241, 296)) by {
        reveal_with_fuel(marks_free, 26);
    }
    lemma_marks_free(s, 241, 296);
    assert(marks_free(s, 325, 355)) by {
        reveal_with_fuel(marks_free, 31);
    }
    assert(marks_free(s, 297, 355)) by {
        reveal_with_fuel(marks_free, 29);
    }
    lemma_marks_free(s, 297, 355);
    assert(marks_free(s, 360, 390)) by {
        reveal_with_fuel(marks_free, 31);
    }
    assert(marks_free(s, 356, 390)) by {
        reveal_with_fuel(marks_free, 5);
    }
    lemma_marks_free(s, 356, 390);
    assert(marks_free(s, 391, 395)) by {
        reveal_with_fuel(marks_free, 5);
    }
    lemma_marks_free(s, 391, 395);
    assert(marks_free(s, 396, 410)) by {
        reveal_with_fuel(marks_free, 15);
    }
    lemma_marks_free(s, 396, 410);
    reveal_strlit("City");
    reveal_strlit("State");
    reveal_strlit("Country");
    reveal_strlit("Location");
    assert forall|q: int| 0 <= q < 411 && s[q] == '=' && q + 1 >= 5 implies differs_within(s, "City"@ + seq!['='], q + 1 - 5, 0) by {
        reveal_with_fuel(differs_within, 20);
    }
    assert forall|q: int| 0 <= q < 411 && s[q] == '=' && q + 1 >= 6 implies differs_within(s, "State"@ + seq!['='], q + 1 - 6, 0) by {
        reveal_with_fuel(differs_within, 20);
    }
    assert forall|q: int| 0 <= q < 411 && s[q] == '=' && q + 1 >= 8 implies differs_within(s, "Country"@ + seq!['='], q + 1 - 8, 0) by {
        reveal_with_fuel(differs_within, 20);
    }
    assert forall|q: int| 0 <= q < 411 && s[q] == '=' && q + 1 >= 9 implies differs_within(s, "Location"@ + seq!['='], q + 1 - 9, 0) by {
        reveal_with_fuel(differs_within, 20);
    }
}

/// Where the text after the city holds `<` and `>` (it holds no `=`), and the tags there.
#[verifier::spinoff_prover]
proof fn lemma_after_city_marks()
    ensures
        after_city().len() == 38,
        forall|j: int| 0 <= j < 38 && after_city()[j] == '<' ==> j == 0 || j == 21,
        forall|j: int| 0 <= j < 38 && after_city()[j] == '>' ==> j == 16 || j == 37,
        forall|j: int| 0 <= j < 38 ==> after_city()[j] != '=',
        after_city()[0] == '<',
        after_city()[1] == '/',
        after_city()[2] == 'p',
        after_city()[3] == 'h',
        after_city()[4] == 'o',
        after_city()[5] == 't',
        after_city()[6] == 'o',
        after_city()[7] == 's',
        after_city()[8] == 'h',
        after_city()[9] == 'o',
        after_city()[10] == 'p',
        after_city()[11] == ':',
        after_city()[12] == 'C',
        after_city()[13] == 'i',
        after_city()[14] == 't',
        after_city()[15] == 'y',
        after_city()[16] == '>',
        after_city()[21] == '<',
        after_city()[22] == 'p',
        after_city()[23] == 'h',
        after_city()[24] == 'o',
        after_city()[25] == 't',
        after_city()[26] == 'o',
        after_city()[27] == 's',
        after_city()[28] == 'h',
        after_city()[29] == 'o',
        after_city()[30] == 'p',
        after_city()[31] == ':',
        after_city()[32] == 'S',
        after_city()[33] == 't',
        after_city()[34] == 'a',
        after_city()[35] == 't',
        after_city()[36] == 'e',
        after_city()[37] == '>',
{
    reveal_strlit("</photoshop:City>\n   <photoshop:State>");
    let s = after_city();
    assert(marks_free(s, 1, 16)) by {
        reveal_with_fuel(marks_free, 16);
    }
    lemma_marks_free(s, 1, 16);
    assert(marks_free(s, 17, 21)) by {
        reveal_with_fuel(marks_free, 5);
    }
    lemma_marks_free(s, 17, 21);
    assert(marks_free(s, 22, 37)) by {
        reveal_with_fuel(marks_free, 16);
    }
    lemma_marks_free(s, 22, 37);
}

/// Where the text after the state holds `<` and `>` (it holds no `=`), and the tags there.
#[verifier::spinoff_prover]
proof fn lemma_after_state_marks()
    ensures
        after_state().len() == 41,
        forall|j: int| 0 <= j < 41 && after_state()[j] == '<' ==> j == 0 || j == 22,
        forall|j: int| 0 <= j < 41 && after_state()[j] == '>' ==> j == 17 || j == 40,
        forall|j: int| 0 <= j < 41 ==> after_state()[j] != '=',
        after_state()[0] == '<',
        after_state()[1] == '/',
        after_state()[2] == 'p',
        after_state()[3] == 'h',
        after_state()[4] == 'o',
        after_state()[5] == 't',
        after_state()[6] == 'o',
        after_state()[7] == 's',
        after_state()[8] == 'h',
        after_state()[9] == 'o',
        after_state()[10] == 'p',
        after_state()[11] == ':',
        after_state()[12] == 'S',
        after_state()[13] == 't',
        after_state()[14] == 'a',
        after_state()[15] == 't',
        after_state()[16] == 'e',
        after_state()[17] == '>',
        after_state()[22] == '<',
        after_state()[23] == 'p',
        after_state()[24] == 'h',
        after_state()[25] == 'o',
        after_state()[26] == 't',
        after_state()[27] == 'o',
        after_state()[28] == 's',
        after_state()[29] == 'h',
        after_state()[30] == 'o',
        after_state()[31] == 'p',
        after_state()[32] == ':',
        after_state()[33] == 'C',
        after_state()[34] == 'o',
        after_state()[35] == 'u',
        after_state()[36] == 'n',
        after_state()[37] == 't',
        after_state()[38] == 'r',
        after_state()[39] == 'y',
        after_state()[40] == '>',
{
    reveal_strlit("</photoshop:State>\n   <photoshop:Country>");
    let s = after_state();
    assert(marks_free(s, 1, 17)) by {
        reveal_with_fuel(marks_free, 17);
    }
    lemma_marks_free(s, 1, 17);
    assert(marks_free(s, 18, 22)) by {
        reveal_with_fuel(marks_free, 5);
    }
    lemma_marks_free(s, 18, 22);
    assert(marks_free(s, 23, 40)) by {
        reveal_with_fuel(marks_free, 18);
    }
    lemma_marks_free(s, 23, 40);
}

/// Where the text after the country holds `<` and `>` (it holds no `=`), and the tags there.
#[verifier::spinoff_prover]
proof fn lemma_after_country_marks()
    ensures
        after_country().len() == 43,
        forall|j: int| 0 <= j < 43 && after_country()[j] == '<' ==> j == 0 || j == 24,
        forall|j: int| 0 <= j < 43 && after_country()[j] == '>' ==> j == 19 || j == 42,
        forall|j: int| 0 <= j < 43 ==> after_country()[j] != '=',
        after_country()[0] == '<',
        after_country()[1] == '/',
        after_country()[2] == 'p',
        after_country()[3] == 'h',
        after_country()[4] == 'o',
        after_country()[5] == 't',
        after_country()[6] == 'o',
        after_country()[7] == 's',
        after_country()[8] == 'h',
        after_country()[9] == 'o',
        after_country()[10] == 'p',
        after_country()[11] == ':',
        after_country()[12] == 'C',
        after_country()[13] == 'o',
        after_country()[14] == 'u',
        after_country()[15] == 'n',
        after_country()[16] == 't',
        after_country()[17] == 'r',
        after_country()[18] == 'y',
        after_country()[19] == '>',
        after_country()[24] == '<',
        after_country()[25] == 'i',
        after_country()[26] == 'p',
        after_country()[27] == 't',
        after_country()[28] == 'c',
        after_country()[29] == 'C',
        after_country()[30] == 'o',
        after_country()[31] == 'r',
        after_country()[32] == 'e',
        after_country()[33] == ':',
        after_country()[34] == 'L',
        after_country()[35] == 'o',
        after_country()[36] == 'c',
        after_country()[37] == 'a',
        after_country()[38] == 't',
        after_country()[39] == 'i',
        after_country()[40] == 'o',
        after_country()[41] == 'n',
        after_country()[42] == '>',
{
    reveal_strlit("</photoshop:Country>\n   <iptcCore:Location>");
    let s = after_country();
    assert(marks_free(s, 1, 19)) by {
        reveal_with_fuel(marks_free, 19);
    }
    lemma_marks_free(s, 1, 19);
    assert(marks_free(s, 20, 24)) by {
        reveal_with_fuel(marks_free, 5);
    }
    lemma_marks_free(s, 20, 24);
    assert(marks_free(s, 25, 42)) by {
        reveal_with_fuel(marks_free, 18);
    }
    lemma_marks_free(s, 25, 42);
}

/// Where the text after the location holds `<` and `>` (it holds no `=`), and the tags there.
#[verifier::spinoff_prover]
proof fn lemma_after_location_marks()
    ensures
        after_location().len() == 56,
        forall|j: int| 0 <= j < 56 && after_location()[j] == '<' ==> j == 0 || j == 24 || j == 41,
        forall|j: int| 0 <= j < 56 && after_location()[j] == '>' ==> j == 19 || j == 35 || j == 49,
        forall|j: int| 0 <= j < 56 ==> after_location()[j] != '=',
        after_location()[0] == '<',
        after_location()[1] == '/',
        after_location()[2] == 'i',
        after_location()[3] == 'p',
        after_location()[4] == 't',
        after_location()[5] == 'c',
        after_location()[6] == 'C',
        after_location()[7] == 'o',
        after_location()[8] == 'r',
        after_location()[9] == 'e',
        after_location()[10] == ':',
        after_location()[11] == 'L',
        after_location()[12] == 'o',
        after_location()[13] == 'c',
        after_location()[14] == 'a',
        after_location()[15] == 't',
        after_location()[16] == 'i',
        after_location()[17] == 'o',
        after_location()[18] == 'n',
        after_location()[19] == '>',
        after_location()[24] == '<',
        after_location()[25] == 'd',
        after_location()[26] == 'c',
        after_location()[27] == ':',
        after_location()[28] == 's',
        after_location()[29] == 'u',
        after_location()[30] == 'b',
        after_location()[31] == 'j',
        after_location()[32] == 'e',
        after_location()[33] == 'c',
        after_location()[34] == 't',
        after_location()[35] == '>',
        after_location()[41] == '<',
        after_location()[42] == 'r',
        after_location()[43] == 'd',
        after_location()[44] == 'f',
        after_location()[45] == ':',
        after_location()[46] == 'B',
        after_location()[47] == 'a',
{
    reveal_strlit("</iptcCore:Location>\n   <dc:subject>\n    <rdf:Bag>\n     ");
    let s = after_location();
    assert(marks_free(s, 1, 19)) by {
        reveal_with_fuel(marks_free, 19);
    }
    lemma_marks_free(s, 1, 19);
    assert(marks_free(s, 20, 24)) by {
        reveal_with_fuel(marks_free, 5);
    }
    lemma_marks_free(s, 20, 24);
    assert(marks_free(s, 25, 35)) by {
        reveal_with_fuel(marks_free, 11);
    }
    lemma_marks_free(s, 25, 35);
    assert(marks_free(s, 36, 41)) by {
        reveal_with_fuel(marks_free, 6);
    }
    lemma_marks_free(s, 36, 41);
    assert(marks_free(s, 42, 49)) by {
        reveal_with_fuel(marks_free, 8);
    }
    lemma_marks_free(s, 42, 49);
    assert(marks_free(s, 50, 56)) by {
        reveal_with_fuel(marks_free, 7);
    }
    lemma_marks_free(s, 50, 56);
}

/// Where the tail of the packet holds `<`, `>` and `=`, and the tags there.
#[verifier::spinoff_prover]
proof fn lemma_tail_marks()
    ensures
        packet_tail().len() == 98,
        forall|j: int| 0 <= j < 98 && packet_tail()[j] == '<' ==> j == 5 || j == 19 || j == 35 || j == 55 || j == 66 || j == 79,
        forall|j: int| 0 <= j < 98 && packet_tail()[j] == '>' ==> j == 14 || j == 31 || j == 52 || j == 64 || j == 77 || j == 97,
        forall|j: int| 0 <= j < 98 && packet_tail()[j] == '=' ==> j == 92,
        forall|q: int| 0 <= q < 98 && packet_tail()[q] == '=' && q + 1 >= 5 ==> differs_within(packet_tail(), "City"@ + seq!['='], q + 1 - 5, 0),
        forall|q: int| 0 <= q < 98 && packet_tail()[q] == '=' && q + 1 >= 6 ==> differs_within(packet_tail(), "State"@ + seq!['='], q + 1 - 6, 0),
        forall|q: int| 0 <= q < 98 && packet_tail()[q] == '=' && q + 1 >= 8 ==> differs_within(packet_tail(), "Country"@ + seq!['='], q + 1 - 8, 0),
        forall|q: int| 0 <= q < 98 && packet_tail()[q] == '=' && q + 1 >= 9 ==> differs_within(packet_tail(), "Location"@ + seq!['='], q + 1 - 9, 0),
        packet_tail()[5] == '<',
        packet_tail()[6] == '/',
        packet_tail()[7] == 'r',
        packet_tail()[8] == 'd',
        packet_tail()[9] == 'f',
        packet_tail()[10] == ':',
        packet_tail()[11] == 'B',
        packet_tail()[19] == '<',
        packet_tail()[20] == '/',
        packet_tail()[21] == 'd',
        packet_tail()[22] == 'c',
        packet_tail()[23] == ':',
        packet_tail()[24] == 's',
        packet_tail()[25] == 'u',
        packet_tail()[35] == '<',
        packet_tail()[36] == '/',
        packet_tail()[37] == 'r',
        packet_tail()[38] == 'd',
        packet_tail()[39] == 'f',
        packet_tail()[40] == ':',
        packet_tail()[41] == 'D',
        packet_tail()[55] == '<',
        packet_tail()[56] == '/',
        packet_tail()[57] == 'r',
        packet_tail()[58] == 'd',
        packet_tail()[59] == 'f',
        packet_tail()[60] == ':',
        packet_tail()[61] == 'R',
        packet_tail()[66] == '<',
        packet_tail()[67] == '/',
        packet_tail()[68] == 'x',
        packet_tail()[69] == ':',
        packet_tail()[70] == 'x',
        packet_tail()[71] == 'm',
        packet_tail()[72] == 'p',
        packet_tail()[79] == '<',
        packet_tail()[80] == '?',
        packet_tail()[81] == 'x',
        packet_tail()[82] == 'p',
        packet_tail()[83] == 'a',
        packet_tail()[84] == 'c',
        packet_tail()[85] == 'k',
{
    reveal_strlit("\n    </rdf:Bag>\n   </dc:subject>\n  </rdf:Description>\n </rdf:RDF>\n</x:xmpmeta>\n<?xpacket end=\"w\"?>");
    let s = packet_tail();
    assert(marks_free(s, 0, 5)) by {
        reveal_with_fuel(marks_free, 6);
    }
    lemma_marks_free(s, 0, 5);
    assert(marks_free(s, 6, 14)) by {
        reveal_with_fuel(marks_free, 9);
    }
    lemma_marks_free(s, 6, 14);
    assert(marks_free(s, 15, 19)) by {
        reveal_with_fuel(marks_free, 5);
    }
    lemma_marks_free(s, 15, 19);
    assert(marks_free(s, 20, 31)) by {
        reveal_with_fuel(marks_free, 12);
    }
    lemma_marks_free(s, 20, 31);
    assert(marks_free(s, 32, 35)) by {
        reveal_with_fuel(marks_free, 4);
    }
    lemma_marks_free(s, 32, 35);
    assert(marks_free(s, 36, 52)) by {
        reveal_with_fuel(marks_free, 17);
    }
    lemma_marks_free(s, 36, 52);
    assert(marks_free(s, 53, 55)) by {
        reveal_with_fuel(marks_free, 3);
    }
    lemma_marks_free(s, 53, 55);
    assert(marks_free(s, 56, 64)) by {
        reveal_with_fuel(marks_free, 9);
    }
    lemma_marks_free(s, 56, 64);
    assert(marks_free(s, 65, 66)) by {
        reveal_with_fuel(marks_free, 2);
    }
    lemma_marks_free(s, 65, 66);
    assert(marks_free(s, 67, 77)) by {
        reveal_with_fuel(marks_free, 11);
    }
    lemma_marks_free(s, 67, 77);
    assert(marks_free(s, 78, 79)) by {
        reveal_with_fuel(marks_free, 2);
    }
    lemma_marks_free(s, 78, 79);
    assert(marks_free(s, 80, 92)) by {
        reveal_with_fuel(marks_free, 13);
    }
    lemma_marks_free(s, 80, 92);
    assert(marks_free(s, 93, 97)) by {
        reveal_with_fuel(marks_free, 5);
    }
    lemma_marks_free(s, 93, 97);
    reveal_strlit("City");
    reveal_strlit("State");
    reveal_strlit("Country");
    reveal_strlit("Location");
    assert forall|q: int| 0 <= q < 98 && s[q] == '=' && q + 1 >= 5 implies differs_within(s, "City"@ + seq!['='], q + 1 - 5, 0) by {
        reveal_with_fuel(differs_within, 20);
    }
    assert forall|q: int| 0 <= q < 98 && s[q] == '=' && q + 1 >= 6 implies differs_within(s, "State"@ + seq!['='], q + 1 - 6, 0) by {
        reveal_with_fuel(differs_within, 20);
    }
    assert forall|q: int| 0 <= q < 98 && s[q] == '=' && q + 1 >= 8 implies differs_within(s, "Country"@ + seq!['='], q + 1 - 8, 0) by {
        reveal_with_fuel(differs_within, 20);
    }
    assert forall|q: int| 0 <= q < 98 && s[q] == '=' && q + 1 >= 9 implies differs_within(s, "Location"@ + seq!['='], q + 1 - 9, 0) by {
        reveal_with_fuel(differs_within, 20);
    }
}


/// The value of an element `<tag>v</tag>` whose opening comes first in the
/// packet is `v`, where `v` is trimmed, not empty and free of `<`; where
/// `v` is empty, the lookup goes on with the closing of the local name.
#[verifier::spinoff_prover]
proof fn lemma_element_read(pre: Seq<char>, piece: Seq<char>, k: int, v: Seq<char>, post: Seq<char>, tag: Seq<char>)
    requires
        0 <= k,
        piece.len() == k + tag.len() + 2,
        piece[k] == '<',
        forall|i: int| 0 <= i < tag.len() ==> piece[k + 1 + i] == tag[i],
        piece[k + tag.len() + 1] == '>',
        forall|i: int| k <= i < k + tag.len() + 1 ==> piece[i] != '>',
        starts_past(pre, piece + v + post, open_pattern(tag)),
        forall|j: int| 0 <= j < k ==> !occurs_at(piece + v + post, open_pattern(tag), j),
        trim(v) == v,
        !v.contains('<'),
        post.len() >= tag.len() + 3,
        post.take(tag.len() + 3int) == close_pattern(tag),
    ensures
        tag_element_value(pre + piece + v + post, tag, open_pattern(tag)) == (if v.len() > 0 {
            Some(v)
        } else {
            closed_value(post, close_pattern(local_name(tag)))
        }),
{
    let x = pre + piece + v + post;
    let rest = piece + v + post;
    let p = open_pattern(tag);
    let t = tag.len() as int;
    assert(x =~= pre + rest);
    lemma_find_past(pre, rest, p);
    assert(rest.subrange(k, k + p.len()) =~= p);
    lemma_find_is(rest, p, k);
    let start = pre.len() + k;
    let gt = seq!['>'];
    let xs = x.skip(start);
    assert(xs.subrange(t + 1, t + 2) =~= gt);
    assert forall|j: int| 0 <= j < t + 1 implies !occurs_at(xs, gt, j) by {
        assert(xs[j] == piece[k + j]);
        if occurs_at(xs, gt, j) {
            assert(xs.subrange(j, j + 1)[0] == xs[j]);
        }
    }
    lemma_find_is(xs, gt, t + 1);
    let after = x.skip(start + (t + 1) + 1);
    assert(after =~= v + post);
    let close = close_pattern(tag);
    lemma_starts_past_without(v, post, close);
    lemma_find_past(v, post, close);
    assert(post.subrange(0, close.len() as int) =~= close);
    lemma_find_is(post, close, 0);
    assert(after.take(v.len() as int) =~= v);
    if v.len() == 0 {
        assert(after =~= post);
    }
}

/// Reading the city back out of the packet.
#[verifier::spinoff_prover]
proof fn lemma_city_read(city: Seq<char>, post: Seq<char>)
    requires
        trim(city) == city,
        !city.contains('<'),
        post.len() >= after_city().len(),
        post.take(after_city().len() as int) == after_city(),
    ensures
        tag_element_value(packet_head() + city + post, "photoshop:City"@, open_pattern("photoshop:City"@)) == (if city.len()
            > 0 {
            Some(city)
        } else {
            closed_value(post, close_pattern(local_name("photoshop:City"@)))
        }),
{
    let tag = "photoshop:City"@;
    let h = packet_head();
    let pre = Seq::<char>::empty();
    reveal_strlit("photoshop:City");
    lemma_head_marks();
    lemma_after_city_marks();
    assert(post.take(17) =~= close_pattern(tag)) by {
        assert(post.take(17) =~= after_city().take(17));
    }
    let p = open_pattern(tag);
    assert forall|j: int| 0 <= j < 395 && h[j] == '<' implies differs_within(h, p, j, 0) by {
        reveal_with_fuel(differs_within, 3);
    }
    lemma_starts_past_tags(h, city + post, p, 395);
    assert(h + city + post =~= h + (city + post));
    assert(pre + h + city + post =~= h + city + post);
    lemma_element_read(pre, h, 395, city, post, tag);
}


/// Reading the state back out of the packet.
#[verifier::spinoff_prover]
proof fn lemma_state_read(city: Seq<char>, state: Seq<char>, post: Seq<char>)
    requires
        !city.contains('<'),
        trim(state) == state,
        !state.contains('<'),
        post.len() >= after_state().len(),
        post.take(after_state().len() as int) == after_state(),
    ensures
        tag_element_value(packet_head() + city + after_city() + state + post, "photoshop:State"@, open_pattern("photoshop:State"@))
            == (if state.len() > 0 {
            Some(state)
        } else {
            closed_value(post, close_pattern(local_name("photoshop:State"@)))
        }),
{
    let tag = "photoshop:State"@;
    let h = packet_head();
    let ac = after_city();
    reveal_strlit("photoshop:State");
    lemma_head_marks();
    lemma_after_city_marks();
    lemma_after_state_marks();
    assert(post.take(18) =~= close_pattern(tag)) by {
        assert(post.take(18) =~= after_state().take(18));
    }
    let p = open_pattern(tag);
    let rest = ac + state + post;
    assert forall|j: int| 0 <= j < h.len() && h[j] == '<' implies differs_within(h, p, j, 0) by {
        reveal_with_fuel(differs_within, 13);
    }
    lemma_starts_past_tags(h, city + rest, p, h.len() as int);
    lemma_starts_past_without(city, rest, p);
    lemma_starts_past_concat(h, city, rest, p);
    assert forall|j: int| 0 <= j < 21 && ac[j] == '<' implies differs_within(ac, p, j, 0) by {
        reveal_with_fuel(differs_within, 3);
    }
    lemma_starts_past_tags(ac, state + post, p, 21);
    assert(ac + state + post =~= ac + (state + post));
    lemma_element_read(h + city, ac, 21, state, post, tag);
}

/// Reading the country back out of the packet.
#[verifier::spinoff_prover]
proof fn lemma_country_read(city: Seq<char>, state: Seq<char>, country: Seq<char>, post: Seq<char>)
    requires
        !city.contains('<'),
        !state.contains('<'),
        trim(country) == country,
        !country.contains('<'),
        post.len() >= after_country().len(),
        post.take(after_country().len() as int) == after_country(),
    ensures
        tag_element_value(
            packet_head() + city + after_city() + state + after_state() + country + post,
            "photoshop:Country"@,
            open_pattern("photoshop:Country"@),
        ) == (if country.len() > 0 {
            Some(country)
        } else {
            closed_value(post, close_pattern(local_name("photoshop:Country"@)))
        }),
{
    let tag = "photoshop:Country"@;
    let h = packet_head();
    let ac = after_city();
    let a_s = after_state();
    reveal_strlit("photoshop:Country");
    lemma_head_marks();
    lemma_after_city_marks();
    lemma_after_state_marks();
    lemma_after_country_marks();
    assert(post.take(20) =~= close_pattern(tag)) by {
        assert(post.take(20) =~= after_country().take(20));
    }
    let p = open_pattern(tag);
    let rest = a_s + country + post;
    assert forall|j: int| 0 <= j < h.len() && h[j] == '<' implies differs_within(h, p, j, 0) by {
        reveal_with_fuel(differs_within, 13);
    }
    assert forall|j: int| 0 <= j < ac.len() && ac[j] == '<' implies differs_within(ac, p, j, 0) by {
        reveal_with_fuel(differs_within, 13);
    }
    lemma_starts_past_tags(h, city + (ac + (state + rest)), p, h.len() as int);
    lemma_starts_past_without(city, ac + (state + rest), p);
    lemma_starts_past_tags(ac, state + rest, p, ac.len() as int);
    lemma_starts_past_without(state, rest, p);
    lemma_starts_past_concat(ac, state, rest, p);
    lemma_starts_past_concat(city, ac + state, rest, p);
    assert(city + (ac + state) + rest =~= city + (ac + (state + rest)));
    assert(city + (ac + state) =~= city + ac + state);
    lemma_starts_past_concat(h, city + ac + state, rest, p);
    assert(h + (city + ac + state) =~= h + city + ac + state);
    assert forall|j: int| 0 <= j < 22 && a_s[j] == '<' implies differs_within(a_s, p, j, 0) by {
        reveal_with_fuel(differs_within, 3);
    }
    lemma_starts_past_tags(a_s, country + post, p, 22);
    assert(a_s + country + post =~= a_s + (country + post));
    lemma_element_read(h + city + ac + state, a_s, 22, country, post, tag);
}


/// Reading the location back out of the packet.
#[verifier::spinoff_prover]
proof fn lemma_location_read(
    city: Seq<char>,
    state: Seq<char>,
    country: Seq<char>,
    location: Seq<char>,
    post: Seq<char>,
)
    requires
        !city.contains('<'),
        !state.contains('<'),
        !country.contains('<'),
        trim(location) == location,
        !location.contains('<'),
        post.len() >= after_location().len(),
        post.take(after_location().len() as int) == after_location(),
    ensures
        tag_element_value(
            packet_head() + city + after_city() + state + after_state() + country + after_country() + location + post,
            "iptcCore:Location"@,
            open_pattern("iptcCore:Location"@),
        ) == (if location.len() > 0 {
            Some(location)
        } else {
            closed_value(post, close_pattern(local_name("iptcCore:Location"@)))
        }),
{
    let tag = "iptcCore:Location"@;
    let h = packet_head();
    let ac = after_city();
    let a_s = after_state();
    let aco = after_country();
    reveal_strlit("iptcCore:Location");
    lemma_head_marks();
    lemma_after_city_marks();
    lemma_after_state_marks();
    lemma_after_country_marks();
    lemma_after_location_marks();
    assert(post.take(20) =~= close_pattern(tag)) by {
        assert(post.take(20) =~= after_location().take(20));
    }
    let p = open_pattern(tag);
    let rest = aco + location + post;
    assert forall|j: int| 0 <= j < h.len() && h[j] == '<' implies differs_within(h, p, j, 0) by {
        reveal_with_fuel(differs_within, 3);
    }
    assert forall|j: int| 0 <= j < ac.len() && ac[j] == '<' implies differs_within(ac, p, j, 0) by {
        reveal_with_fuel(differs_within, 3);
    }
    assert forall|j: int| 0 <= j < a_s.len() && a_s[j] == '<' implies differs_within(a_s, p, j, 0) by {
        reveal_with_fuel(differs_within, 3);
    }
    let mid = city + ac + state + a_s + country;
    lemma_starts_past_tags(h, mid + rest, p, h.len() as int);
    lemma_starts_past_without(country, rest, p);
    lemma_starts_past_tags(a_s, country + rest, p, a_s.len() as int);
    lemma_starts_past_concat(a_s, country, rest, p);
    lemma_starts_past_without(state, a_s + country + rest, p);
    assert(a_s + (country + rest) =~= a_s + country + rest);
    lemma_starts_past_concat(state, a_s + country, rest, p);
    assert(state + (a_s + country) =~= state + a_s + country);
    assert((a_s + country) + rest =~= a_s + country + rest);
    lemma_starts_past_tags(ac, state + a_s + country + rest, p, ac.len() as int);
    lemma_starts_past_concat(ac, state + a_s + country, rest, p);
    assert(ac + (state + a_s + country) =~= ac + state + a_s + country);
    assert(state + a_s + country + rest =~= (state + a_s + country) + rest);
    lemma_starts_past_without(city, ac + state + a_s + country + rest, p);
    assert(ac + state + a_s + country + rest =~= (ac + state + a_s + country) + rest);
    lemma_starts_past_concat(city, ac + state + a_s + country, rest, p);
    assert(city + (ac + state + a_s + country) =~= mid);
    lemma_starts_past_concat(h, mid, rest, p);
    assert(h + mid =~= h + city + ac + state + a_s + country);
    assert forall|j: int| 0 <= j < 24 && aco[j] == '<' implies differs_within(aco, p, j, 0) by {
        reveal_with_fuel(differs_within, 3);
    }
    lemma_starts_past_tags(aco, location + post, p, 24);
    assert(aco + location + post =~= aco + (location + post));
    lemma_element_read(h + city + ac + state + a_s + country, aco, 24, location, post, tag);
}


/// A name as the packet lists it: not empty, trimmed and free of `<`.
pub open spec fn plain_name(n: Seq<char>) -> bool {
    n.len() > 0 && trim(n) == n && !n.contains('<')
}

/// The list items of the given names, in order.
pub open spec fn items_text(names: Seq<Seq<char>>) -> Seq<char>
    decreases names.len(),
{
    if names.len() == 0 {
        Seq::empty()
    } else {
        person_item(names[0]) + items_text(names.drop_first())
    }
}

/// A name alone, or nothing when it is empty.
pub open spec fn name_list(name: Seq<char>) -> Seq<Seq<char>> {
    if name.len() == 0 {
        Seq::empty()
    } else {
        seq![name]
    }
}

/// The names of a comma-separated list of people, each trimmed, the empty
/// ones left out.
pub open spec fn person_names(s: Seq<char>) -> Seq<Seq<char>>
    decreases s.len(),
{
    match find(s, seq![',']) {
        Some(i) => name_list(trim(s.take(i))) + person_names(s.skip(i + 1)),
        None => name_list(trim(s)),
    }
}

/// The items of two lists of names, one after the other.
#[verifier::spinoff_prover]
proof fn lemma_items_text_concat(a: Seq<Seq<char>>, b: Seq<Seq<char>>)
    ensures
        items_text(a + b) == items_text(a) + items_text(b),
    decreases a.len(),
{
    if a.len() == 0 {
        assert(a + b =~= b);
        assert(items_text(a) + items_text(b) =~= items_text(b));
    } else {
        assert((a + b).drop_first() =~= a.drop_first() + b);
        assert((a + b)[0] == a[0]);
        lemma_items_text_concat(a.drop_first(), b);
        assert(items_text(a + b) =~= items_text(a) + items_text(b));
    }
}

/// The item of one trimmed name, and that the name is plain.
#[verifier::spinoff_prover]
proof fn lemma_name_item(n: Seq<char>, s: Seq<char>)
    requires
        n == trim(s),
        !s.contains('<'),
    ensures
        items_text(name_list(n)) == person_item(n),
        forall|k: int| 0 <= k < name_list(n).len() ==> plain_name(#[trigger] name_list(n)[k]),
{
    lemma_trim_idempotent(s);
    if n.contains('<') {
        lemma_trim_contains(s, '<');
    }
    if n.len() > 0 {
        assert(name_list(n).drop_first() =~= Seq::<Seq<char>>::empty());
        assert(items_text(Seq::<Seq<char>>::empty()) == Seq::<char>::empty());
        assert(name_list(n)[0] == n);
        assert(items_text(name_list(n)) =~= person_item(n));
    }
}

/// The list items written for a list of people are those of its names,
/// and each name is plain where the list holds no `<`.
#[verifier::spinoff_prover]
proof fn lemma_people_items(s: Seq<char>)
    requires
        !s.contains('<'),
    ensures
        people_items(s) == items_text(person_names(s)),
        forall|k: int| 0 <= k < person_names(s).len() ==> plain_name(#[trigger] person_names(s)[k]),
    decreases s.len(),
{
    match find(s, seq![',']) {
        Some(i) => {
            let head = s.take(i);
            let tail = s.skip(i + 1);
            if head.contains('<') {
                let j = choose|j: int| 0 <= j < head.len() && head[j] == '<';
                assert(s[j] == '<');
            }
            if tail.contains('<') {
                let j = choose|j: int| 0 <= j < tail.len() && tail[j] == '<';
                assert(s[i + 1 + j] == '<');
            }
            lemma_name_item(trim(head), head);
            lemma_people_items(tail);
            lemma_items_text_concat(name_list(trim(head)), person_names(tail));
            let a = name_list(trim(head));
            let b = person_names(tail);
            assert forall|k: int| 0 <= k < (a + b).len() implies plain_name(#[trigger] (a + b)[k]) by {
                if k >= a.len() {
                    assert((a + b)[k] == b[k - a.len()]);
                }
            }
        },
        None => {
            lemma_name_item(trim(s), s);
        },
    }
}


/// No list item opens in the tail of the packet.
#[verifier::spinoff_prover]
proof fn lemma_tail_has_no_item()
    ensures
        find(packet_tail(), item_open()) is None,
{
    let t = packet_tail();
    let li = item_open();
    lemma_tail_marks();
    assert forall|j: int| 0 <= j < t.len() && t[j] == '<' implies differs_within(t, li, j, 0) by {
        reveal_with_fuel(differs_within, 3);
    }
    lemma_starts_past_tags(t, Seq::<char>::empty(), li, t.len() as int);
    assert(t + Seq::<char>::empty() =~= t);
    assert forall|j: int| !occurs_at(t, li, j) by {
        if 0 <= j < t.len() {
            assert(!occurs_at(t + Seq::<char>::empty(), li, j));
        }
    }
    lemma_find_none(t, li);
}

/// The searches that reading one list item makes.
#[verifier::spinoff_prover]
proof fn lemma_item_finds(w: Seq<char>, n: Seq<char>, more: Seq<char>)
    requires
        plain_name(n),
        w == "<rdf:li>"@ + (n + ("</rdf:li>"@ + more)),
    ensures
        find(w, item_open()) == Some(0int),
        find(w, seq!['>']) == Some(7int),
        find(w.skip(8), item_close()) == Some(n.len() as int),
        w.subrange(8, 8 + n.len() as int) == n,
        w.skip(8 + n.len() as int) == "</rdf:li>"@ + more,
{
    reveal_strlit("<rdf:li>");
    reveal_strlit("</rdf:li>");
    let li = item_open();
    let lc = "</rdf:li>"@;
    assert(w.subrange(0, 7) =~= li);
    lemma_find_is(w, li, 0);
    let gt = seq!['>'];
    assert(w.subrange(7, 8) =~= gt);
    assert forall|j: int| 0 <= j < 7 implies !occurs_at(w, gt, j) by {
        if occurs_at(w, gt, j) {
            assert(w.subrange(j, j + 1)[0] == w[j]);
        }
    }
    lemma_find_is(w, gt, 7);
    let after = lc + more;
    assert(w.skip(8) =~= n + after);
    lemma_starts_past_without(n, after, item_close());
    lemma_find_past(n, after, item_close());
    assert(after.subrange(0, 9) =~= item_close());
    lemma_find_is(after, item_close(), 0);
    assert(w.subrange(8, 8 + n.len() as int) =~= n);
    assert(w.skip(8 + n.len() as int) =~= after);
}

/// No list item opens inside the closing of one.
#[verifier::spinoff_prover]
proof fn lemma_item_close_has_no_item(more: Seq<char>)
    ensures
        starts_past("</rdf:li>"@, more, item_open()),
{
    reveal_strlit("</rdf:li>");
    let lc = "</rdf:li>"@;
    assert forall|j: int| 0 <= j < lc.len() && lc[j] == '<' implies differs_within(lc, item_open(), j, 0) by {
        reveal_with_fuel(differs_within, 3);
    }
    lemma_starts_past_tags(lc, more, item_open(), lc.len() as int);
}

/// The searches that reading one list item makes, from `idx` in `sub`.
#[verifier::spinoff_prover]
proof fn lemma_item_searches(sub: Seq<char>, idx: int, c: Seq<char>, n: Seq<char>, more: Seq<char>)
    requires
        0 <= idx <= sub.len(),
        plain_name(n),
        sub.skip(idx) == c + ("<rdf:li>"@ + (n + ("</rdf:li>"@ + more))),
        starts_past(c, "<rdf:li>"@ + (n + ("</rdf:li>"@ + more)), item_open()),
    ensures
        idx + c.len() + 8 + n.len() <= sub.len(),
        find(sub.skip(idx), item_open()) == Some(c.len() as int),
        find(sub.skip(idx + c.len()), seq!['>']) == Some(7int),
        find(sub.skip(idx + c.len() + 8), item_close()) == Some(n.len() as int),
        sub.subrange(idx + c.len() + 8, idx + c.len() + 8 + n.len()) == n,
        sub.skip(idx + c.len() + 8 + n.len()) == "</rdf:li>"@ + more,
{
    let w = "<rdf:li>"@ + (n + ("</rdf:li>"@ + more));
    lemma_find_past(c, w, item_open());
    lemma_item_finds(w, n, more);
    let a = idx + c.len();
    assert(sub.skip(idx).len() == c.len() + w.len());
    assert(sub.skip(a) =~= (c + w).skip(c.len() as int));
    assert((c + w).skip(c.len() as int) =~= w);
    let vs = a + 8;
    assert(sub.skip(vs) =~= w.skip(8));
    assert(sub.subrange(vs, vs + n.len()) =~= w.subrange(8, 8 + n.len() as int));
    assert(sub.skip(vs + n.len()) =~= w.skip(8 + n.len() as int));
}

/// Reading one list item: where `c` and then an item of `n` follow, the
/// items read are `n` and then what follows the item.
#[verifier::spinoff_prover]
proof fn lemma_bag_items_step(sub: Seq<char>, idx: int, c: Seq<char>, n: Seq<char>, more: Seq<char>)
    requires
        0 <= idx <= sub.len(),
        plain_name(n),
        sub.skip(idx) == c + ("<rdf:li>"@ + (n + ("</rdf:li>"@ + more))),
        starts_past(c, "<rdf:li>"@ + (n + ("</rdf:li>"@ + more)), item_open()),
    ensures
        idx + c.len() + 8 + n.len() <= sub.len(),
        bag_items(sub, idx) == seq![n] + bag_items(sub, idx + c.len() + 8 + n.len()),
        sub.skip(idx + c.len() + 8 + n.len()) == "</rdf:li>"@ + more,
{
    lemma_item_searches(sub, idx, c, n, more);
}

/// Reading the list items where `c` and then a tail that opens no item
/// follow finds none.
#[verifier::spinoff_prover]
proof fn lemma_bag_items_end(sub: Seq<char>, idx: int, c: Seq<char>, tail: Seq<char>)
    requires
        0 <= idx <= sub.len(),
        sub.skip(idx) == c + tail,
        starts_past(c, tail, item_open()),
        find(tail, item_open()) is None,
    ensures
        bag_items(sub, idx) == Seq::<Seq<char>>::empty(),
{
    lemma_find_past(c, tail, item_open());
}

/// The items of a list split off at its first name.
#[verifier::spinoff_prover]
proof fn lemma_items_text_first(names: Seq<Seq<char>>, t: Seq<char>)
    requires
        names.len() > 0,
        names[0].len() > 0,
    ensures
        items_text(names) + t == "<rdf:li>"@ + (names[0] + ("</rdf:li>"@ + (items_text(names.drop_first()) + t))),
{
    assert(items_text(names) + t =~= "<rdf:li>"@ + (names[0] + ("</rdf:li>"@ + (items_text(names.drop_first()) + t))));
}

/// Reading the list items from a point after which `c`, the items of
/// `names` and a tail that opens no item follow gives back `names`.
#[verifier::spinoff_prover]
proof fn lemma_bag_items_read(sub: Seq<char>, idx: int, c: Seq<char>, names: Seq<Seq<char>>, t: Seq<char>)
    requires
        0 <= idx <= sub.len(),
        sub.skip(idx) == c + (items_text(names) + t),
        starts_past(c, items_text(names) + t, item_open()),
        forall|k: int| 0 <= k < names.len() ==> plain_name(#[trigger] names[k]),
        find(t, item_open()) is None,
    ensures
        bag_items(sub, idx) == names,
    decreases names.len(),
{
    if names.len() == 0 {
        assert(items_text(names) + t =~= t);
        lemma_bag_items_end(sub, idx, c, t);
    } else {
        let n = names[0];
        let rest = names.drop_first();
        let more = items_text(rest) + t;
        assert(plain_name(n));
        lemma_items_text_first(names, t);
        lemma_bag_items_step(sub, idx, c, n, more);
        lemma_item_close_has_no_item(more);
        assert forall|k: int| 0 <= k < rest.len() implies plain_name(#[trigger] rest[k]) by {
            assert(rest[k] == names[k + 1]);
        }
        lemma_bag_items_read(sub, idx + c.len() + 8 + n.len(), "</rdf:li>"@, rest, t);
        assert(names =~= seq![n] + rest);
    }
}

/// Reading the people back out of a packet whose `dc:subject` element is
/// the first one gives back the names.
#[verifier::spinoff_prover]
proof fn lemma_bag_read(pre: Seq<char>, names: Seq<Seq<char>>)
    requires
        starts_past(pre, after_location() + (items_text(names) + packet_tail()), open_pattern("dc:subject"@)),
        forall|k: int| 0 <= k < names.len() ==> plain_name(#[trigger] names[k]),
    ensures
        xmp_bag_value(pre + after_location() + items_text(names) + packet_tail(), "dc:subject"@)
            == join(names, item_separator()),
{
    reveal_strlit("dc:subject");
    let tag = "dc:subject"@;
    let p = open_pattern(tag);
    let al = after_location();
    let body = items_text(names) + packet_tail();
    let x = pre + al + items_text(names) + packet_tail();
    lemma_after_location_marks();
    assert(x =~= pre + (al + body));
    lemma_find_past(pre, al + body, p);
    assert forall|j: int| 0 <= j < 24 && al[j] == '<' implies differs_within(al, p, j, 0) by {
        reveal_with_fuel(differs_within, 3);
    }
    lemma_starts_past_tags(al, body, p, 24);
    assert((al + body).subrange(24, 35) =~= p);
    lemma_find_is(al + body, p, 24);
    let start = pre.len() + 24int;
    let c = al.skip(24);
    let sub = x.skip(start);
    assert(sub =~= c + body);
    assert forall|j: int| 0 <= j < c.len() && c[j] == '<' implies differs_within(c, item_open(), j, 0) by {
        assert(c[j] == al[24 + j]);
        reveal_with_fuel(differs_within, 7);
    }
    lemma_starts_past_tags(c, body, item_open(), c.len() as int);
    assert(sub.skip(0) =~= sub);
    lemma_tail_has_no_item();
    lemma_bag_items_read(sub, 0, c, names, packet_tail());
}


/// No `dc:subject` element opens before the one after the location.
#[verifier::spinoff_prover]
proof fn lemma_subject_first(city: Seq<char>, state: Seq<char>, country: Seq<char>, location: Seq<char>, rest: Seq<char>)
    requires
        !city.contains('<'),
        !state.contains('<'),
        !country.contains('<'),
        !location.contains('<'),
    ensures
        starts_past(
            packet_head() + city + after_city() + state + after_state() + country + after_country() + location,
            rest,
            open_pattern("dc:subject"@),
        ),
{
    reveal_strlit("dc:subject");
    let p = open_pattern("dc:subject"@);
    let h = packet_head();
    let ac = after_city();
    let a_s = after_state();
    let aco = after_country();
    lemma_head_marks();
    lemma_after_city_marks();
    lemma_after_state_marks();
    lemma_after_country_marks();
    assert forall|j: int| 0 <= j < h.len() && h[j] == '<' implies differs_within(h, p, j, 0) by {
        reveal_with_fuel(differs_within, 3);
    }
    assert forall|j: int| 0 <= j < ac.len() && ac[j] == '<' implies differs_within(ac, p, j, 0) by {
        reveal_with_fuel(differs_within, 3);
    }
    assert forall|j: int| 0 <= j < a_s.len() && a_s[j] == '<' implies differs_within(a_s, p, j, 0) by {
        reveal_with_fuel(differs_within, 3);
    }
    assert forall|j: int| 0 <= j < aco.len() && aco[j] == '<' implies differs_within(aco, p, j, 0) by {
        reveal_with_fuel(differs_within, 3);
    }
    let r8 = location;
    lemma_starts_past_without(r8, rest, p);
    let r7 = aco + r8;
    lemma_starts_past_tags(aco, r8 + rest, p, aco.len() as int);
    lemma_starts_past_concat(aco, r8, rest, p);
    let r6 = country + r7;
    lemma_starts_past_without(country, r7 + rest, p);
    lemma_starts_past_concat(country, r7, rest, p);
    let r5 = a_s + r6;
    lemma_starts_past_tags(a_s, r6 + rest, p, a_s.len() as int);
    lemma_starts_past_concat(a_s, r6, rest, p);
    let r4 = state + r5;
    lemma_starts_past_without(state, r5 + rest, p);
    lemma_starts_past_concat(state, r5, rest, p);
    let r3 = ac + r4;
    lemma_starts_past_tags(ac, r4 + rest, p, ac.len() as int);
    lemma_starts_past_concat(ac, r4, rest, p);
    let r2 = city + r3;
    lemma_starts_past_without(city, r3 + rest, p);
    lemma_starts_past_concat(city, r3, rest, p);
    let r1 = h + r2;
    lemma_starts_past_tags(h, r2 + rest, p, h.len() as int);
    lemma_starts_past_concat(h, r2, rest, p);
    assert(r1 =~= h + city + ac + state + a_s + country + aco + location);
}

/// `p` occurs nowhere in `s`.
pub open spec fn absent(s: Seq<char>, p: Seq<char>) -> bool {
    forall|j: int| !#[trigger] occurs_at(s, p, j)
}

/// What starts nowhere in `a` and occurs nowhere in `b` occurs nowhere in
/// `a + b`.
#[verifier::spinoff_prover]
proof fn lemma_absent_concat(a: Seq<char>, b: Seq<char>, p: Seq<char>)
    requires
        starts_past(a, b, p),
        absent(b, p),
    ensures
        absent(a + b, p),
{
    assert forall|j: int| !#[trigger] occurs_at(a + b, p, j) by {
        if j >= a.len() {
            lemma_occurs_shift(a, b, p, j - a.len());
        }
    }
}

/// What occurs nowhere in `a + b` occurs nowhere in `b`.
#[verifier::spinoff_prover]
proof fn lemma_absent_suffix(a: Seq<char>, b: Seq<char>, p: Seq<char>)
    requires
        absent(a + b, p),
    ensures
        absent(b, p),
{
    assert forall|j: int| !#[trigger] occurs_at(b, p, j) by {
        if j >= 0 {
            lemma_occurs_shift(a, b, p, j);
        }
    }
}

/// Where a pattern's ending occurs nowhere, the pattern occurs nowhere.
#[verifier::spinoff_prover]
proof fn lemma_absent_ending(s: Seq<char>, r: Seq<char>, q: Seq<char>)
    requires
        absent(s, q),
    ensures
        absent(s, r + q),
{
    assert forall|j: int| !#[trigger] occurs_at(s, r + q, j) by {
        if occurs_at(s, r + q, j) {
            let k = j + r.len();
            assert(s.subrange(k, k + q.len()) =~= (r + q).subrange(r.len() as int, (r + q).len() as int));
            assert((r + q).subrange(r.len() as int, (r + q).len() as int) =~= q);
            assert(occurs_at(s, q, k));
        }
    }
}

/// Every `=` of `b` comes after a `<` of `b`.
pub open spec fn eq_after_lt(b: Seq<char>) -> bool {
    forall|i: int| 0 <= i < b.len() && b[i] == '=' ==> exists|k: int| 0 <= k < i && #[trigger] b[k] == '<'
}

/// What opens with `<` has every `=` after a `<`.
#[verifier::spinoff_prover]
proof fn lemma_eq_after_lt_tag(a: Seq<char>, b: Seq<char>)
    requires
        a.len() > 0,
        a[0] == '<',
    ensures
        eq_after_lt(a + b),
{
    assert forall|i: int| 0 <= i < (a + b).len() && (a + b)[i] == '=' implies exists|k: int|
        0 <= k < i && #[trigger] (a + b)[k] == '<' by {
        assert((a + b)[0] == '<');
    }
}

/// A text without `=` keeps every `=` of what follows after a `<`.
#[verifier::spinoff_prover]
proof fn lemma_eq_after_lt_value(v: Seq<char>, b: Seq<char>)
    requires
        !v.contains('='),
        eq_after_lt(b),
    ensures
        eq_after_lt(v + b),
{
    assert forall|i: int| 0 <= i < (v + b).len() && (v + b)[i] == '=' implies exists|k: int|
        0 <= k < i && #[trigger] (v + b)[k] == '<' by {
        if i < v.len() {
            assert(v[i] == '=');
        } else {
            assert(b[i - v.len()] == '=');
            let k = choose|k: int| 0 <= k < i - v.len() && #[trigger] b[k] == '<';
            assert((v + b)[v.len() + k] == '<');
        }
    }
}

/// An attribute pattern (it ends with `=` and holds no `<`) starts nowhere
/// in `a` when each `=` of `a` ends no match of it, and every `=` of what
/// follows comes after a `<`.
#[verifier::spinoff_prover]
proof fn lemma_starts_past_attr(a: Seq<char>, b: Seq<char>, p: Seq<char>)
    requires
        p.len() > 0,
        p.last() == '=',
        !p.contains('<'),
        eq_after_lt(b),
        forall|q: int| 0 <= q < a.len() && a[q] == '=' && q + 1 >= p.len() ==> differs_within(a, p, q + 1 - p.len(), 0),
    ensures
        starts_past(a, b, p),
{
    assert forall|j: int| 0 <= j < a.len() implies !#[trigger] occurs_at(a + b, p, j) by {
        if occurs_at(a + b, p, j) {
            let e = j + p.len() - 1;
            assert((a + b).subrange(j, j + p.len())[p.len() - 1] == p.last());
            assert((a + b)[e] == '=');
            if e < a.len() {
                assert(a[e] == '=');
                lemma_differs_within(a, b, p, j, 0);
            } else {
                assert(b[e - a.len()] == '=');
                let k = choose|k: int| 0 <= k < e - a.len() && #[trigger] b[k] == '<';
                assert((a + b)[a.len() + k] == '<');
                assert((a + b).subrange(j, j + p.len())[a.len() + k - j] == p[a.len() + k - j]);
                assert(p[a.len() + k - j] == '<');
            }
        }
    }
}

/// A pattern that opens with `<` and then differs from every tag that the
/// packet writes, within its first three characters.
pub open spec fn foreign_tag(p: Seq<char>) -> bool {
    &&& p.len() >= 3
    &&& p[0] == '<'
    &&& (p[1] != '?' && p[1] != 'x' && p[1] != 'r' && p[1] != 'p' && p[1] != 'i' && p[1] != 'd' && p[1] != '/')
        || (p[1] == '/' && p[2] != 'p' && p[2] != 'i' && p[2] != 'r' && p[2] != 'd' && p[2] != 'x')
}

/// A pattern foreign to the packet's tags differs from every tag of it.
#[verifier::spinoff_prover]
proof fn lemma_foreign_tag_differs(p: Seq<char>)
    requires
        foreign_tag(p),
    ensures
        forall|j: int| 0 <= j < packet_head().len() && packet_head()[j] == '<' ==> differs_within(packet_head(), p, j, 0),
        forall|j: int| 0 <= j < after_city().len() && after_city()[j] == '<' ==> differs_within(after_city(), p, j, 0),
        forall|j: int| 0 <= j < after_state().len() && after_state()[j] == '<' ==> differs_within(after_state(), p, j, 0),
        forall|j: int| 0 <= j < after_country().len() && after_country()[j] == '<' ==> differs_within(after_country(), p, j, 0),
        forall|j: int| 0 <= j < after_location().len() && after_location()[j] == '<' ==> differs_within(after_location(), p, j, 0),
        forall|j: int| 0 <= j < packet_tail().len() && packet_tail()[j] == '<' ==> differs_within(packet_tail(), p, j, 0),
        forall|j: int| 0 <= j < "<rdf:li>"@.len() && "<rdf:li>"@[j] == '<' ==> differs_within("<rdf:li>"@, p, j, 0),
        forall|j: int| 0 <= j < "</rdf:li>"@.len() && "</rdf:li>"@[j] == '<' ==> differs_within("</rdf:li>"@, p, j, 0),
{
    lemma_head_marks();
    lemma_after_city_marks();
    lemma_after_state_marks();
    lemma_after_country_marks();
    lemma_after_location_marks();
    lemma_tail_marks();
    reveal_strlit("<rdf:li>");
    reveal_strlit("</rdf:li>");
    reveal_with_fuel(differs_within, 4);
}

/// A foreign tag starts nowhere among list items.
#[verifier::spinoff_prover]
proof fn lemma_items_starts_past_tag(names: Seq<Seq<char>>, b: Seq<char>, p: Seq<char>)
    requires
        foreign_tag(p),
        forall|k: int| 0 <= k < names.len() ==> plain_name(#[trigger] names[k]),
    ensures
        starts_past(items_text(names), b, p),
    decreases names.len(),
{
    if names.len() > 0 {
        let n = names[0];
        let rest = names.drop_first();
        let r = items_text(rest);
        let lo = "<rdf:li>"@;
        let lc = "</rdf:li>"@;
        assert(plain_name(n));
        assert forall|k: int| 0 <= k < rest.len() implies plain_name(#[trigger] rest[k]) by {
            assert(rest[k] == names[k + 1]);
        }
        lemma_items_starts_past_tag(rest, b, p);
        lemma_foreign_tag_differs(p);
        lemma_starts_past_tags(lc, r + b, p, lc.len() as int);
        lemma_starts_past_concat(lc, r, b, p);
        lemma_starts_past_without(n, (lc + r) + b, p);
        lemma_starts_past_concat(n, lc + r, b, p);
        lemma_starts_past_tags(lo, (n + (lc + r)) + b, p, lo.len() as int);
        lemma_starts_past_concat(lo, n + (lc + r), b, p);
        lemma_items_text_first(names, Seq::<char>::empty());
        assert(items_text(names) =~= lo + (n + (lc + r)));
    }
}

/// A foreign tag occurs nowhere from the list of people on.
#[verifier::spinoff_prover]
proof fn lemma_foreign_tag_absent_tail(names: Seq<Seq<char>>, p: Seq<char>)
    requires
        foreign_tag(p),
        forall|k: int| 0 <= k < names.len() ==> plain_name(#[trigger] names[k]),
    ensures
        absent(after_location() + (items_text(names) + packet_tail()), p),
{
    lemma_foreign_tag_differs(p);
    let e = Seq::<char>::empty();
    let t = packet_tail();
    lemma_starts_past_tags(t, e, p, t.len() as int);
    lemma_absent_concat(t, e, p);
    assert(t + e =~= t);
    let r10 = items_text(names) + t;
    lemma_items_starts_past_tag(names, t, p);
    lemma_absent_concat(items_text(names), t, p);
    lemma_starts_past_tags(after_location(), r10, p, after_location().len() as int);
    lemma_absent_concat(after_location(), r10, p);
}

/// A foreign tag occurs nowhere in a packet whose values hold no `<`.
#[verifier::spinoff_prover]
proof fn lemma_foreign_tag_absent(
    city: Seq<char>,
    state: Seq<char>,
    country: Seq<char>,
    location: Seq<char>,
    names: Seq<Seq<char>>,
    p: Seq<char>,
)
    requires
        foreign_tag(p),
        !city.contains('<'),
        !state.contains('<'),
        !country.contains('<'),
        !location.contains('<'),
        forall|k: int| 0 <= k < names.len() ==> plain_name(#[trigger] names[k]),
    ensures
        absent(xmp_packet(city, state, country, location, items_text(names)), p),
{
    lemma_foreign_tag_differs(p);
    let r9 = after_location() + (items_text(names) + packet_tail());
    lemma_foreign_tag_absent_tail(names, p);
    let r8 = location + r9;
    lemma_starts_past_without(location, r9, p);
    lemma_absent_concat(location, r9, p);
    let r7 = after_country() + r8;
    lemma_starts_past_tags(after_country(), r8, p, after_country().len() as int);
    lemma_absent_concat(after_country(), r8, p);
    let r6 = country + r7;
    lemma_starts_past_without(country, r7, p);
    lemma_absent_concat(country, r7, p);
    let r5 = after_state() + r6;
    lemma_starts_past_tags(after_state(), r6, p, after_state().len() as int);
    lemma_absent_concat(after_state(), r6, p);
    let r4 = state + r5;
    lemma_starts_past_without(state, r5, p);
    lemma_absent_concat(state, r5, p);
    let r3 = after_city() + r4;
    lemma_starts_past_tags(after_city(), r4, p, after_city().len() as int);
    lemma_absent_concat(after_city(), r4, p);
    let r2 = city + r3;
    lemma_starts_past_without(city, r3, p);
    lemma_absent_concat(city, r3, p);
    let r1 = packet_head() + r2;
    lemma_starts_past_tags(packet_head(), r2, p, packet_head().len() as int);
    lemma_absent_concat(packet_head(), r2, p);
    assert(xmp_packet(city, state, country, location, items_text(names)) =~= r1);
}

/// An attribute pattern starts nowhere among list items whose names hold
/// no `=`, and every `=` after them comes after a `<`.
#[verifier::spinoff_prover]
proof fn lemma_items_starts_past_attr(names: Seq<Seq<char>>, b: Seq<char>, p: Seq<char>)
    requires
        p.len() > 0,
        p.last() == '=',
        !p.contains('<'),
        eq_after_lt(b),
        forall|k: int| 0 <= k < names.len() ==> plain_name(#[trigger] names[k]) && !names[k].contains('='),
    ensures
        starts_past(items_text(names), b, p),
        eq_after_lt(items_text(names) + b),
    decreases names.len(),
{
    if names.len() == 0 {
        assert(items_text(names) + b =~= b);
    } else {
        let n = names[0];
        let rest = names.drop_first();
        let r = items_text(rest);
        let lo = "<rdf:li>"@;
        let lc = "</rdf:li>"@;
        assert(plain_name(n) && !n.contains('='));
        assert forall|k: int| 0 <= k < rest.len() implies plain_name(#[trigger] rest[k]) && !rest[k].contains('=') by {
            assert(rest[k] == names[k + 1]);
        }
        lemma_items_starts_past_attr(rest, b, p);
        reveal_strlit("<rdf:li>");
        reveal_strlit("</rdf:li>");
        lemma_starts_past_attr(lc, r + b, p);
        lemma_starts_past_concat(lc, r, b, p);
        lemma_eq_after_lt_tag(lc, r + b);
        assert(lc + (r + b) =~= (lc + r) + b);
        lemma_starts_past_attr(n, (lc + r) + b, p);
        lemma_starts_past_concat(n, lc + r, b, p);
        lemma_eq_after_lt_value(n, (lc + r) + b);
        assert(n + ((lc + r) + b) =~= (n + (lc + r)) + b);
        lemma_starts_past_attr(lo, (n + (lc + r)) + b, p);
        lemma_starts_past_concat(lo, n + (lc + r), b, p);
        lemma_eq_after_lt_tag(lo, (n + (lc + r)) + b);
        assert(lo + ((n + (lc + r)) + b) =~= (lo + (n + (lc + r))) + b);
        lemma_items_text_first(names, Seq::<char>::empty());
        assert(items_text(names) =~= lo + (n + (lc + r)));
    }
}

/// An attribute pattern occurs nowhere in a packet whose values hold
/// neither `<` nor `=`, when it ends no `=` of the head or the tail.
#[verifier::spinoff_prover]
proof fn lemma_attribute_absent(
    city: Seq<char>,
    state: Seq<char>,
    country: Seq<char>,
    location: Seq<char>,
    names: Seq<Seq<char>>,
    p: Seq<char>,
)
    requires
        p.len() > 0,
        p.last() == '=',
        !p.contains('<'),
        !city.contains('<') && !city.contains('='),
        !state.contains('<') && !state.contains('='),
        !country.contains('<') && !country.contains('='),
        !location.contains('<') && !location.contains('='),
        forall|k: int| 0 <= k < names.len() ==> plain_name(#[trigger] names[k]) && !names[k].contains('='),
        forall|q: int| 0 <= q < packet_head().len() && packet_head()[q] == '=' && q + 1 >= p.len()
            ==> differs_within(packet_head(), p, q + 1 - p.len(), 0),
        forall|q: int| 0 <= q < packet_tail().len() && packet_tail()[q] == '=' && q + 1 >= p.len()
            ==> differs_within(packet_tail(), p, q + 1 - p.len(), 0),
    ensures
        absent(xmp_packet(city, state, country, location, items_text(names)), p),
{
    lemma_after_city_marks();
    lemma_after_state_marks();
    lemma_after_country_marks();
    lemma_after_location_marks();
    lemma_tail_marks();
    let e = Seq::<char>::empty();
    let t = packet_tail();
    lemma_starts_past_attr(t, e, p);
    lemma_absent_concat(t, e, p);
    assert(t + e =~= t);
    assert(eq_after_lt(t)) by {
        assert(t[5] == '<');
    }
    let r10 = items_text(names) + t;
    lemma_items_starts_past_attr(names, t, p);
    lemma_absent_concat(items_text(names), t, p);
    let r9 = after_location() + r10;
    lemma_starts_past_attr(after_location(), r10, p);
    lemma_absent_concat(after_location(), r10, p);
    lemma_eq_after_lt_tag(after_location(), r10);
    let r8 = location + r9;
    lemma_starts_past_attr(location, r9, p);
    lemma_absent_concat(location, r9, p);
    lemma_eq_after_lt_value(location, r9);
    let r7 = after_country() + r8;
    lemma_starts_past_attr(after_country(), r8, p);
    lemma_absent_concat(after_country(), r8, p);
    lemma_eq_after_lt_tag(after_country(), r8);
    let r6 = country + r7;
    lemma_starts_past_attr(country, r7, p);
    lemma_absent_concat(country, r7, p);
    lemma_eq_after_lt_value(country, r7);
    let r5 = after_state() + r6;
    lemma_starts_past_attr(after_state(), r6, p);
    lemma_absent_concat(after_state(), r6, p);
    lemma_eq_after_lt_tag(after_state(), r6);
    let r4 = state + r5;
    lemma_starts_past_attr(state, r5, p);
    lemma_absent_concat(state, r5, p);
    lemma_eq_after_lt_value(state, r5);
    let r3 = after_city() + r4;
    lemma_starts_past_attr(after_city(), r4, p);
    lemma_absent_concat(after_city(), r4, p);
    lemma_eq_after_lt_tag(after_city(), r4);
    let r2 = city + r3;
    lemma_starts_past_attr(city, r3, p);
    lemma_absent_concat(city, r3, p);
    lemma_eq_after_lt_value(city, r3);
    let r1 = packet_head() + r2;
    lemma_starts_past_attr(packet_head(), r2, p);
    lemma_absent_concat(packet_head(), r2, p);
    assert(xmp_packet(city, state, country, location, items_text(names)) =~= r1);
}

/// The local names of the place tags.
#[verifier::spinoff_prover]
proof fn lemma_local_names()
    ensures
        local_name("photoshop:City"@) == "City"@,
        local_name("photoshop:State"@) == "State"@,
        local_name("photoshop:Country"@) == "Country"@,
        local_name("iptcCore:Location"@) == "Location"@,
        "photoshop:City"@ == "photoshop:"@ + "City"@,
        "photoshop:State"@ == "photoshop:"@ + "State"@,
        "photoshop:Country"@ == "photoshop:"@ + "Country"@,
        "iptcCore:Location"@ == "iptcCore:"@ + "Location"@,
{
    reveal_strlit("photoshop:City");
    reveal_strlit("photoshop:State");
    reveal_strlit("photoshop:Country");
    reveal_strlit("iptcCore:Location");
    reveal_strlit("City");
    reveal_strlit("State");
    reveal_strlit("Country");
    reveal_strlit("Location");
    reveal_strlit("photoshop:");
    reveal_strlit("iptcCore:");
    reveal_with_fuel(local_name, 10);
    assert(local_name("photoshop:City"@) =~= "City"@);
    assert(local_name("photoshop:State"@) =~= "State"@);
    assert(local_name("photoshop:Country"@) =~= "Country"@);
    assert(local_name("iptcCore:Location"@) =~= "Location"@);
    assert("photoshop:City"@ =~= "photoshop:"@ + "City"@);
    assert("photoshop:State"@ =~= "photoshop:"@ + "State"@);
    assert("photoshop:Country"@ =~= "photoshop:"@ + "Country"@);
    assert("iptcCore:Location"@ =~= "iptcCore:"@ + "Location"@);
}

/// A tag whose element is empty, and whose local name occurs nowhere as an
/// element or an attribute, reads as empty, and its lookup does not run
/// off the packet.
#[verifier::spinoff_prover]
proof fn lemma_empty_tag_read(x: Seq<char>, post: Seq<char>, tag: Seq<char>, prefix: Seq<char>, local: Seq<char>)
    requires
        tag == prefix + local,
        local_name(tag) == local,
        tag_element_value(x, tag, open_pattern(tag)) == closed_value(post, close_pattern(local)),
        absent(post, close_pattern(local)),
        absent(x, open_pattern(local)),
        absent(x, attribute_pattern(local)),
    ensures
        xmp_tag_value(x, tag) == Seq::<char>::empty(),
        !crate::xmp::xmp_tag_lookup_fails(x, tag),
{
    lemma_find_none(post, close_pattern(local));
    lemma_find_none(x, open_pattern(local));
    lemma_absent_ending(x, prefix, attribute_pattern(local));
    assert(prefix + attribute_pattern(local) =~= attribute_pattern(tag));
    lemma_find_none(x, attribute_pattern(tag));
    lemma_find_none(x, attribute_pattern(local));
}

/// The names of a list that lacks a character lack it too.
#[verifier::spinoff_prover]
proof fn lemma_person_names_lack(s: Seq<char>, c: char)
    requires
        !s.contains(c),
    ensures
        forall|k: int| 0 <= k < person_names(s).len() ==> !(#[trigger] person_names(s)[k]).contains(c),
    decreases s.len(),
{
    match find(s, seq![',']) {
        Some(i) => {
            let head = s.take(i);
            let tail = s.skip(i + 1);
            if head.contains(c) {
                let j = choose|j: int| 0 <= j < head.len() && head[j] == c;
                assert(s[j] == c);
            }
            if tail.contains(c) {
                let j = choose|j: int| 0 <= j < tail.len() && tail[j] == c;
                assert(s[i + 1 + j] == c);
            }
            if trim(head).contains(c) {
                lemma_trim_contains(head, c);
            }
            lemma_person_names_lack(tail, c);
            let a = name_list(trim(head));
            let b = person_names(tail);
            assert forall|k: int| 0 <= k < (a + b).len() implies !(#[trigger] (a + b)[k]).contains(c) by {
                if k >= a.len() {
                    assert((a + b)[k] == b[k - a.len()]);
                } else {
                    assert(a[k] == trim(head));
                }
            }
        },
        None => {
            if trim(s).contains(c) {
                lemma_trim_contains(s, c);
            }
            if trim(s).len() > 0 {
                assert(name_list(trim(s))[0] == trim(s));
            }
        },
    }
}

/// An empty place value reads back as empty from a packet whose values hold
/// neither `<` nor `=`.
#[verifier::spinoff_prover]
proof fn lemma_empty_place_read(
    city: Seq<char>,
    state: Seq<char>,
    country: Seq<char>,
    location: Seq<char>,
    names: Seq<Seq<char>>,
    pre: Seq<char>,
    post: Seq<char>,
    tag: Seq<char>,
    prefix: Seq<char>,
    local: Seq<char>,
)
    requires
        xmp_packet(city, state, country, location, items_text(names)) == pre + post,
        tag == prefix + local,
        local_name(tag) == local,
        tag_element_value(pre + post, tag, open_pattern(tag)) == closed_value(post, close_pattern(local)),
        foreign_tag(close_pattern(local)),
        foreign_tag(open_pattern(local)),
        !city.contains('<') && !city.contains('='),
        !state.contains('<') && !state.contains('='),
        !country.contains('<') && !country.contains('='),
        !location.contains('<') && !location.contains('='),
        forall|k: int| 0 <= k < names.len() ==> plain_name(#[trigger] names[k]) && !names[k].contains('='),
        !attribute_pattern(local).contains('<'),
        forall|q: int| 0 <= q < packet_head().len() && packet_head()[q] == '=' && q + 1 >= attribute_pattern(local).len()
            ==> differs_within(packet_head(), attribute_pattern(local), q + 1 - attribute_pattern(local).len(), 0),
        forall|q: int| 0 <= q < packet_tail().len() && packet_tail()[q] == '=' && q + 1 >= attribute_pattern(local).len()
            ==> differs_within(packet_tail(), attribute_pattern(local), q + 1 - attribute_pattern(local).len(), 0),
    ensures
        xmp_tag_value(pre + post, tag) == Seq::<char>::empty(),
        !crate::xmp::xmp_tag_lookup_fails(pre + post, tag),
{
    let x = pre + post;
    lemma_foreign_tag_absent(city, state, country, location, names, close_pattern(local));
    lemma_absent_suffix(pre, post, close_pattern(local));
    lemma_foreign_tag_absent(city, state, country, location, names, open_pattern(local));
    assert(attribute_pattern(local).last() == '=');
    lemma_attribute_absent(city, state, country, location, names, attribute_pattern(local));
    lemma_empty_tag_read(x, post, tag, prefix, local);
}


/// None of the values written into a packet holds `=`.
pub open spec fn values_free_of_eq(
    city: Seq<char>,
    state: Seq<char>,
    country: Seq<char>,
    location: Seq<char>,
    people: Seq<char>,
) -> bool {
    !city.contains('=') && !state.contains('=') && !country.contains('=') && !location.contains('=')
        && !people.contains('=')
}

/// The city read back out of the packet (see [`law_packet_read_back`]).
#[verifier::spinoff_prover]
proof fn lemma_city_reads(
    city: Seq<char>,
    state: Seq<char>,
    country: Seq<char>,
    location: Seq<char>,
    people: Seq<char>,
)
    requires
        trim(city) == city && !city.contains('<'),
        trim(state) == state && !state.contains('<'),
        trim(country) == country && !country.contains('<'),
        trim(location) == location && !location.contains('<'),
        !people.contains('<'),
        city.len() > 0 || values_free_of_eq(city, state, country, location, people),
    ensures
        xmp_tag_value(xmp_packet(city, state, country, location, people_items(people)), "photoshop:City"@) == city,
        !crate::xmp::xmp_tag_lookup_fails(xmp_packet(city, state, country, location, people_items(people)), "photoshop:City"@),
{
    let items = people_items(people);
    let names = person_names(people);
    lemma_people_items(people);
    let x = xmp_packet(city, state, country, location, items);
    let h = packet_head();
    let ac = after_city();
    let a_s = after_state();
    let aco = after_country();
    let al = after_location();
    let t = packet_tail();
    let post4 = al + items + t;
    let post3 = aco + location + post4;
    let post2 = a_s + country + post3;
    let post1 = ac + state + post2;
    assert(post1.take(ac.len() as int) =~= ac);
    let pre = h + city;
    assert(x =~= pre + post1);
    lemma_city_read(city, post1);
    if city.len() == 0 {
        lemma_person_names_lack(people, '=');
        lemma_local_names();
        lemma_head_marks();
        lemma_tail_marks();
        reveal_strlit("City");
        lemma_empty_place_read(city, state, country, location, names, pre, post1, "photoshop:City"@, "photoshop:"@, "City"@);
    }
}

/// The state read back out of the packet (see [`law_packet_read_back`]).
#[verifier::spinoff_prover]
proof fn lemma_state_reads(
    city: Seq<char>,
    state: Seq<char>,
    country: Seq<char>,
    location: Seq<char>,
    people: Seq<char>,
)
    requires
        trim(city) == city && !city.contains('<'),
        trim(state) == state && !state.contains('<'),
        trim(country) == country && !country.contains('<'),
        trim(location) == location && !location.contains('<'),
        !people.contains('<'),
        state.len() > 0 || values_free_of_eq(city, state, country, location, people),
    ensures
        xmp_tag_value(xmp_packet(city, state, country, location, people_items(people)), "photoshop:State"@) == state,
        !crate::xmp::xmp_tag_lookup_fails(xmp_packet(city, state, country, location, people_items(people)), "photoshop:State"@),
{
    let items = people_items(people);
    let names = person_names(people);
    lemma_people_items(people);
    let x = xmp_packet(city, state, country, location, items);
    let h = packet_head();
    let ac = after_city();
    let a_s = after_state();
    let aco = after_country();
    let al = after_location();
    let t = packet_tail();
    let post4 = al + items + t;
    let post3 = aco + location + post4;
    let post2 = a_s + country + post3;
    let post1 = ac + state + post2;
    assert(post2.take(a_s.len() as int) =~= a_s);
    let pre = h + city + ac + state;
    assert(x =~= pre + post2);
    lemma_state_read(city, state, post2);
    if state.len() == 0 {
        lemma_person_names_lack(people, '=');
        lemma_local_names();
        lemma_head_marks();
        lemma_tail_marks();
        reveal_strlit("State");
        lemma_empty_place_read(city, state, country, location, names, pre, post2, "photoshop:State"@, "photoshop:"@, "State"@);
    }
}

/// The country read back out of the packet (see [`law_packet_read_back`]).
#[verifier::spinoff_prover]
proof fn lemma_country_reads(
    city: Seq<char>,
    state: Seq<char>,
    country: Seq<char>,
    location: Seq<char>,
    people: Seq<char>,
)
    requires
        trim(city) == city && !city.contains('<'),
        trim(state) == state && !state.contains('<'),
        trim(country) == country && !country.contains('<'),
        trim(location) == location && !location.contains('<'),
        !people.contains('<'),
        country.len() > 0 || values_free_of_eq(city, state, country, location, people),
    ensures
        xmp_tag_value(xmp_packet(city, state, country, location, people_items(people)), "photoshop:Country"@) == country,
        !crate::xmp::xmp_tag_lookup_fails(xmp_packet(city, state, country, location, people_items(people)), "photoshop:Country"@),
{
    let items = people_items(people);
    let names = person_names(people);
    lemma_people_items(people);
    let x = xmp_packet(city, state, country, location, items);
    let h = packet_head();
    let ac = after_city();
    let a_s = after_state();
    let aco = after_country();
    let al = after_location();
    let t = packet_tail();
    let post4 = al + items + t;
    let post3 = aco + location + post4;
    let post2 = a_s + country + post3;
    let post1 = ac + state + post2;
    assert(post3.take(aco.len() as int) =~= aco);
    let pre = h + city + ac + state + a_s + country;
    assert(x =~= pre + post3);
    lemma_country_read(city, state, country, post3);
    if country.len() == 0 {
        lemma_person_names_lack(people, '=');
        lemma_local_names();
        lemma_head_marks();
        lemma_tail_marks();
        reveal_strlit("Country");
        lemma_empty_place_read(city, state, country, location, names, pre, post3, "photoshop:Country"@, "photoshop:"@, "Country"@);
    }
}

/// The location read back out of the packet (see [`law_packet_read_back`]).
#[verifier::spinoff_prover]
proof fn lemma_location_reads(
    city: Seq<char>,
    state: Seq<char>,
    country: Seq<char>,
    location: Seq<char>,
    people: Seq<char>,
)
    requires
        trim(city) == city && !city.contains('<'),
        trim(state) == state && !state.contains('<'),
        trim(country) == country && !country.contains('<'),
        trim(location) == location && !location.contains('<'),
        !people.contains('<'),
        location.len() > 0 || values_free_of_eq(city, state, country, location, people),
    ensures
        xmp_tag_value(xmp_packet(city, state, country, location, people_items(people)), "iptcCore:Location"@) == location,
        !crate::xmp::xmp_tag_lookup_fails(xmp_packet(city, state, country, location, people_items(people)), "iptcCore:Location"@),
{
    let items = people_items(people);
    let names = person_names(people);
    lemma_people_items(people);
    let x = xmp_packet(city, state, country, location, items);
    let h = packet_head();
    let ac = after_city();
    let a_s = after_state();
    let aco = after_country();
    let al = after_location();
    let t = packet_tail();
    let post4 = al + items + t;
    let post3 = aco + location + post4;
    let post2 = a_s + country + post3;
    let post1 = ac + state + post2;
    assert(post4.take(al.len() as int) =~= al);
    let pre = h + city + ac + state + a_s + country + aco + location;
    assert(x =~= pre + post4);
    lemma_location_read(city, state, country, location, post4);
    if location.len() == 0 {
        lemma_person_names_lack(people, '=');
        lemma_local_names();
        lemma_head_marks();
        lemma_tail_marks();
        reveal_strlit("Location");
        lemma_empty_place_read(city, state, country, location, names, pre, post4, "iptcCore:Location"@, "iptcCore:"@, "Location"@);
    }
}

/// Law: reading back the packet that "Apply" writes gives what it was
/// written with.  Each place value (city, state, country, location) that
/// is trimmed and free of `<` reads back as itself: a non-empty one
/// always, an empty one where no value holds `=` (else an attribute-like
/// `City="..."` inside another value could be read in its place).  The
/// people, written from a comma-separated list free of `<`, read back as
/// the names of that list, each trimmed, the empty ones left out, joined
/// by `", "`.  And where each place value is non-empty or no value holds
/// `=`, none of the lookups runs off the end of the packet.
#[verifier::spinoff_prover]
pub proof fn law_packet_read_back(
    city: Seq<char>,
    state: Seq<char>,
    country: Seq<char>,
    location: Seq<char>,
    people: Seq<char>,
)
    requires
        trim(city) == city && !city.contains('<'),
        trim(state) == state && !state.contains('<'),
        trim(country) == country && !country.contains('<'),
        trim(location) == location && !location.contains('<'),
        !people.contains('<'),
    ensures
        city.len() > 0 || values_free_of_eq(city, state, country, location, people) ==> xmp_tag_value(
            xmp_packet(city, state, country, location, people_items(people)),
            "photoshop:City"@,
        ) == city,
        state.len() > 0 || values_free_of_eq(city, state, country, location, people) ==> xmp_tag_value(
            xmp_packet(city, state, country, location, people_items(people)),
            "photoshop:State"@,
        ) == state,
        country.len() > 0 || values_free_of_eq(city, state, country, location, people) ==> xmp_tag_value(
            xmp_packet(city, state, country, location, people_items(people)),
            "photoshop:Country"@,
        ) == country,
        location.len() > 0 || values_free_of_eq(city, state, country, location, people) ==> xmp_tag_value(
            xmp_packet(city, state, country, location, people_items(people)),
            "iptcCore:Location"@,
        ) == location,
        xmp_bag_value(xmp_packet(city, state, country, location, people_items(people)), "dc:subject"@)
            == join(person_names(people), item_separator()),
        (city.len() > 0 && state.len() > 0 && country.len() > 0 && location.len() > 0)
            || values_free_of_eq(city, state, country, location, people)
            ==> !xmp_fields_lookup_fails(xmp_packet(city, state, country, location, people_items(people))),
{
    let items = people_items(people);
    let names = person_names(people);
    lemma_people_items(people);
    if city.len() > 0 || values_free_of_eq(city, state, country, location, people) {
        lemma_city_reads(city, state, country, location, people);
    }
    if state.len() > 0 || values_free_of_eq(city, state, country, location, people) {
        lemma_state_reads(city, state, country, location, people);
    }
    if country.len() > 0 || values_free_of_eq(city, state, country, location, people) {
        lemma_country_reads(city, state, country, location, people);
    }
    if location.len() > 0 || values_free_of_eq(city, state, country, location, people) {
        lemma_location_reads(city, state, country, location, people);
    }
    let x = xmp_packet(city, state, country, location, items);
    let pre4 = packet_head() + city + after_city() + state + after_state() + country + after_country() + location;
    let t = packet_tail();
    lemma_subject_first(city, state, country, location, after_location() + (items_text(names) + t));
    assert(x =~= pre4 + after_location() + items_text(names) + t);
    lemma_bag_read(pre4, names);
}


/// A place value of the form, and the photograph's own, as "Apply" can
/// read them back: the form's free of `<`, the photograph's trimmed and
/// free of `<`.
pub open spec fn place_pair_plain(form: Seq<char>, own: Seq<char>) -> bool {
    !form.contains('<') && trim(own) == own && !own.contains('<')
}

/// The value chosen from such a pair is trimmed and free of `<`.
proof fn lemma_chosen_plain(form: Seq<char>, own: Seq<char>)
    requires
        place_pair_plain(form, own),
    ensures
        trim(chosen_value(form, own)) == chosen_value(form, own),
        !chosen_value(form, own).contains('<'),
{
    if trim(form).len() > 0 {
        lemma_trim_idempotent(form);
        if trim(form).contains('<') {
            lemma_trim_contains(form, '<');
        }
    }
}

/// Law: the people that "Apply" writes into a photograph's packet are the
/// form's list, trimmed, where it names anyone; where the form's people
/// field is empty or blank, the photograph keeps its own people.  The
/// place values around them are chosen the same way, each on its own.
/// Read back (with people and place values free of `<`, the photograph's
/// place values trimmed), the packet's `dc:subject` bag lists the names
/// of the chosen list.
#[verifier::spinoff_prover]
pub proof fn law_apply_keeps_people(form: ExifFields, own: ExifFields)
    ensures
        trim(form.people_str@).len() == 0 ==> planned_packet(form, own) == xmp_packet(
            chosen_value(form.city_str@, own.city_str@),
            chosen_value(form.state_str@, own.state_str@),
            chosen_value(form.country_str@, own.country_str@),
            chosen_value(form.sublocation_str@, own.sublocation_str@),
            people_items(own.people_str@),
        ),
        trim(form.people_str@).len() > 0 ==> planned_packet(form, own) == xmp_packet(
            chosen_value(form.city_str@, own.city_str@),
            chosen_value(form.state_str@, own.state_str@),
            chosen_value(form.country_str@, own.country_str@),
            chosen_value(form.sublocation_str@, own.sublocation_str@),
            people_items(trim(form.people_str@)),
        ),
        ({
            &&& place_pair_plain(form.city_str@, own.city_str@)
            &&& place_pair_plain(form.state_str@, own.state_str@)
            &&& place_pair_plain(form.country_str@, own.country_str@)
            &&& place_pair_plain(form.sublocation_str@, own.sublocation_str@)
            &&& !form.people_str@.contains('<')
            &&& !own.people_str@.contains('<')
        }) ==> xmp_bag_value(planned_packet(form, own), "dc:subject"@) == join(
            person_names(if trim(form.people_str@).len() > 0 { trim(form.people_str@) } else { own.people_str@ }),
            item_separator(),
        ),
{
    let city = chosen_value(form.city_str@, own.city_str@);
    let state = chosen_value(form.state_str@, own.state_str@);
    let country = chosen_value(form.country_str@, own.country_str@);
    let location = chosen_value(form.sublocation_str@, own.sublocation_str@);
    let people = chosen_value(form.people_str@, own.people_str@);
    if place_pair_plain(form.city_str@, own.city_str@) && place_pair_plain(form.state_str@, own.state_str@)
        && place_pair_plain(form.country_str@, own.country_str@)
        && place_pair_plain(form.sublocation_str@, own.sublocation_str@) && !form.people_str@.contains('<')
        && !own.people_str@.contains('<') {
        lemma_chosen_plain(form.city_str@, own.city_str@);
        lemma_chosen_plain(form.state_str@, own.state_str@);
        lemma_chosen_plain(form.country_str@, own.country_str@);
        lemma_chosen_plain(form.sublocation_str@, own.sublocation_str@);
        if trim(form.people_str@).len() > 0 && trim(form.people_str@).contains('<') {
            lemma_trim_contains(form.people_str@, '<');
        }
        law_packet_read_back(city, state, country, location, people);
    }
}


/// The value of field `f` that a photograph's EXIF tags give after "Apply"
/// wrote the form `form` over them (`own` being the photograph's fields).
pub open spec fn read_after_apply(
    form: ExifFields,
    own: ExifFields,
    texts: Map<TextTag, Seq<char>>,
    rats: Map<RationalTag, Seq<(u32, u32)>>,
    f: Field,
) -> Seq<char> {
    exif_field_value(
        texts_after(texts, planned_exif_edits(form, own)),
        rationals_after(rats, planned_exif_edits(form, own)),
        f,
    )
}

/// What a planned text edit does to the tags.
#[verifier::spinoff_prover]
proof fn lemma_text_edit_effect(
    texts: Map<TextTag, Seq<char>>,
    rats: Map<RationalTag, Seq<(u32, u32)>>,
    tag: TextTag,
    form: Seq<char>,
)
    ensures
        texts_after(texts, text_edit(tag, form)) == (if trim(form).len() > 0 {
            texts.insert(tag, trim(form))
        } else {
            texts
        }),
        rationals_after(rats, text_edit(tag, form)) == rats,
{
    let e = text_edit(tag, form);
    let none = Seq::<EditView>::empty();
    assert(texts_after(texts, none) == texts);
    assert(rationals_after(rats, none) == rats);
    if trim(form).len() > 0 {
        assert(e.drop_last() =~= none);
        assert(e.last() == EditView::Text(tag, trim(form)));
    } else {
        assert(e =~= none);
    }
}

/// What the planned date and time edit does to the tags.
#[verifier::spinoff_prover]
proof fn lemma_date_time_effect(
    texts: Map<TextTag, Seq<char>>,
    rats: Map<RationalTag, Seq<(u32, u32)>>,
    form: ExifFields,
    own: ExifFields,
)
    ensures
        texts_after(texts, date_time_edit(form, own)) == (if trim(form.date_str@).len() > 0 || trim(
            form.time_str@,
        ).len() > 0 {
            texts.insert(
                TextTag::DateTimeOriginal,
                chosen_value(form.date_str@, own.date_str@) + seq![' '] + chosen_value(form.time_str@, own.time_str@),
            )
        } else {
            texts
        }),
        rationals_after(rats, date_time_edit(form, own)) == rats,
{
    let e = date_time_edit(form, own);
    let none = Seq::<EditView>::empty();
    assert(texts_after(texts, none) == texts);
    assert(rationals_after(rats, none) == rats);
    if e.len() > 0 {
        assert(e.drop_last() =~= none);
    } else {
        assert(e =~= none);
    }
}

/// What the planned altitude edits do to the tags.
#[verifier::spinoff_prover]
proof fn lemma_altitude_effect(
    texts: Map<TextTag, Seq<char>>,
    rats: Map<RationalTag, Seq<(u32, u32)>>,
    form: ExifFields,
)
    ensures
        texts_after(texts, altitude_edits(form)) == texts,
        rationals_after(rats, altitude_edits(form)) == (match parse_u32_spec(trim(form.altitude_str@)) {
            Some(a) => rats.insert(RationalTag::GpsAltitude, seq![(a, 1u32)]),
            None => rats,
        }),
{
    let e = altitude_edits(form);
    let none = Seq::<EditView>::empty();
    assert(texts_after(texts, none) == texts);
    assert(rationals_after(rats, none) == rats);
    if e.len() > 0 {
        let e1 = e.drop_last();
        assert(e1.drop_last() =~= none);
        assert(e1.last() == e[0]);
        assert(texts_after(texts, e1) == texts);
        assert(rationals_after(rats, e1) == rats.insert(RationalTag::GpsAltitude, seq![(parse_u32_spec(trim(form.altitude_str@))->0, 1u32)]));
    } else {
        assert(e =~= none);
    }
}

/// Law: reading back the EXIF tags that "Apply" writes gives the form's
/// values.  Each text field of the form (digitized date, UTC offset,
/// description, credit) reads back trimmed where it is not empty, and as
/// before where it is; the altitude reads back as the whole number written
/// where the form's value reads as one, and as before otherwise; the date
/// and time read as before where the form gives neither, and where it
/// gives either they read back as the chosen date and time (the form's,
/// else the photograph's own) when each of these is a single word.
#[verifier::spinoff_prover]
pub proof fn law_exif_read_back(
    form: ExifFields,
    own: ExifFields,
    texts: Map<TextTag, Seq<char>>,
    rats: Map<RationalTag, Seq<(u32, u32)>>,
)
    ensures
        read_after_apply(form, own, texts, rats, Field::DigitizedDate) == chosen_value(
            form.digitized_date_str@,
            exif_field_value(texts, rats, Field::DigitizedDate),
        ),
        read_after_apply(form, own, texts, rats, Field::OffsetTime) == chosen_value(
            form.offset_time_str@,
            exif_field_value(texts, rats, Field::OffsetTime),
        ),
        read_after_apply(form, own, texts, rats, Field::Caption) == chosen_value(
            form.caption_str@,
            exif_field_value(texts, rats, Field::Caption),
        ),
        read_after_apply(form, own, texts, rats, Field::Credit) == chosen_value(
            form.credit_str@,
            exif_field_value(texts, rats, Field::Credit),
        ),
        read_after_apply(form, own, texts, rats, Field::Altitude) == (match parse_u32_spec(trim(form.altitude_str@)) {
            Some(a) => decimal(a as nat),
            None => exif_field_value(texts, rats, Field::Altitude),
        }),
        trim(form.date_str@).len() == 0 && trim(form.time_str@).len() == 0 ==> read_after_apply(
            form,
            own,
            texts,
            rats,
            Field::Date,
        ) == exif_field_value(texts, rats, Field::Date) && read_after_apply(form, own, texts, rats, Field::Time)
            == exif_field_value(texts, rats, Field::Time),
        (trim(form.date_str@).len() > 0 || trim(form.time_str@).len() > 0) && single_word(
            chosen_value(form.date_str@, own.date_str@),
        ) && single_word(chosen_value(form.time_str@, own.time_str@)) ==> read_after_apply(
            form,
            own,
            texts,
            rats,
            Field::Date,
        ) == chosen_value(form.date_str@, own.date_str@) && read_after_apply(form, own, texts, rats, Field::Time)
            == chosen_value(form.time_str@, own.time_str@),
{
    let d = date_time_edit(form, own);
    let c = text_edit(TextTag::CreateDate, form.digitized_date_str@);
    let o = text_edit(TextTag::OffsetTimeOriginal, form.offset_time_str@);
    let a = altitude_edits(form);
    let i = text_edit(TextTag::ImageDescription, form.caption_str@);
    let r = text_edit(TextTag::Artist, form.credit_str@);
    lemma_edits_after_concat(texts, rats, d + c + o + a + i, r);
    lemma_edits_after_concat(texts, rats, d + c + o + a, i);
    lemma_edits_after_concat(texts, rats, d + c + o, a);
    lemma_edits_after_concat(texts, rats, d + c, o);
    lemma_edits_after_concat(texts, rats, d, c);
    let t1 = texts_after(texts, d);
    let r1 = rationals_after(rats, d);
    lemma_date_time_effect(texts, rats, form, own);
    let t2 = texts_after(t1, c);
    lemma_text_edit_effect(t1, r1, TextTag::CreateDate, form.digitized_date_str@);
    let t3 = texts_after(t2, o);
    lemma_text_edit_effect(t2, r1, TextTag::OffsetTimeOriginal, form.offset_time_str@);
    let r4 = rationals_after(r1, a);
    lemma_altitude_effect(t3, r1, form);
    let t5 = texts_after(t3, i);
    lemma_text_edit_effect(t3, r4, TextTag::ImageDescription, form.caption_str@);
    lemma_text_edit_effect(t5, r4, TextTag::Artist, form.credit_str@);
    if let Some(alt) = parse_u32_spec(trim(form.altitude_str@)) {
        let rats_after = rationals_after(rats, planned_exif_edits(form, own));
        assert(rats_after[RationalTag::GpsAltitude] == seq![(alt, 1u32)]);
        assert(seq![(alt, 1u32)][0] == (alt, 1u32));
        assert((alt as int) / 1 == alt as int);
    }
    let cd = chosen_value(form.date_str@, own.date_str@);
    let ct = chosen_value(form.time_str@, own.time_str@);
    if (trim(form.date_str@).len() > 0 || trim(form.time_str@).len() > 0) && single_word(cd) && single_word(ct) {
        lemma_words_of_two(cd, ct);
    }
}


/// A `dc:subject` element holding just a bag of the given names, as
/// "Apply" writes it.
pub open spec fn subject_bag(names: Seq<Seq<char>>) -> Seq<char> {
    "<dc:subject><rdf:Bag>"@ + items_text(names) + "</rdf:Bag></dc:subject>"@
}

/// Law: reading the people back out of a bare `dc:subject` bag gives its
/// names, joined by `", "`, where each name is trimmed, not empty and free
/// of `<`.
#[verifier::spinoff_prover]
pub proof fn law_bag_read_back(names: Seq<Seq<char>>)
    requires
        forall|k: int| 0 <= k < names.len() ==> plain_name(#[trigger] names[k]),
    ensures
        xmp_bag_value(subject_bag(names), "dc:subject"@) == join(names, item_separator()),
{
    reveal_strlit("<dc:subject><rdf:Bag>");
    reveal_strlit("</rdf:Bag></dc:subject>");
    reveal_strlit("dc:subject");
    let head = "<dc:subject><rdf:Bag>"@;
    let tail = "</rdf:Bag></dc:subject>"@;
    let items = items_text(names);
    let x = subject_bag(names);
    let p = open_pattern("dc:subject"@);
    let li = item_open();
    assert(x =~= head + (items + tail));
    assert(x.subrange(0, 11) =~= p);
    lemma_find_is(x, p, 0);
    assert forall|j: int| 0 <= j < head.len() && head[j] == '<' implies differs_within(head, li, j, 0) by {
        reveal_with_fuel(differs_within, 7);
    }
    lemma_starts_past_tags(head, items + tail, li, head.len() as int);
    let e = Seq::<char>::empty();
    assert forall|j: int| 0 <= j < tail.len() && tail[j] == '<' implies differs_within(tail, li, j, 0) by {
        reveal_with_fuel(differs_within, 3);
    }
    lemma_starts_past_tags(tail, e, li, tail.len() as int);
    assert(tail + e =~= tail);
    assert forall|j: int| !occurs_at(tail, li, j) by {
        if 0 <= j < tail.len() {
            assert(!occurs_at(tail + e, li, j));
        }
    }
    lemma_find_none(tail, li);
    assert(x.skip(0) =~= x);
    lemma_bag_items_read(x, 0, head, names, tail);
}


/// Law: the place values and people that "Apply" writes into a JPEG file
/// come back when the file is read again.  Where the new file holds the
/// segments with the packet replaced (as `write_xmp_into_jpeg` gives them,
/// unless only a scan was kept), reading its packet gives the packet
/// written, from which the values read back as [`law_packet_read_back`]
/// says.
#[verifier::spinoff_prover]
pub proof fn law_jpeg_file_read_back(
    segs: Seq<SegmentModel>,
    out: Seq<u8>,
    city: Seq<char>,
    state: Seq<char>,
    country: Seq<char>,
    location: Seq<char>,
    people: Seq<char>,
)
    requires
        trim(city) == city && !city.contains('<'),
        trim(state) == state && !state.contains('<'),
        trim(country) == country && !country.contains('<'),
        trim(location) == location && !location.contains('<'),
        !people.contains('<'),
    ensures
        jpeg_decode(out) == Some(
            jpeg_with_xmp(segs, jpeg_xmp_payload(xmp_packet(city, state, country, location, people_items(people)))),
        ) ==> ({
            let x = xmp_packet(city, state, country, location, people_items(people));
            &&& jpeg_xmp(out) == Some(x)
            &&& city.len() > 0 || values_free_of_eq(city, state, country, location, people) ==> xmp_tag_value(
                x,
                "photoshop:City"@,
            ) == city
            &&& state.len() > 0 || values_free_of_eq(city, state, country, location, people) ==> xmp_tag_value(
                x,
                "photoshop:State"@,
            ) == state
            &&& country.len() > 0 || values_free_of_eq(city, state, country, location, people) ==> xmp_tag_value(
                x,
                "photoshop:Country"@,
            ) == country
            &&& location.len() > 0 || values_free_of_eq(city, state, country, location, people) ==> xmp_tag_value(
                x,
                "iptcCore:Location"@,
            ) == location
            &&& xmp_bag_value(x, "dc:subject"@) == join(person_names(people), item_separator())
        }),
{
    law_jpeg_packet_read_back(segs, xmp_packet(city, state, country, location, people_items(people)));
    law_packet_read_back(city, state, country, location, people);
}


/// Searching `a + y` for an element whose opening starts nowhere in `a`
/// finds what searching `y` finds.
#[verifier::spinoff_prover]
proof fn lemma_element_value_shift(a: Seq<char>, y: Seq<char>, open: Seq<char>, c1: Seq<char>, c2: Seq<char>)
    requires
        starts_past(a, y, open),
    ensures
        element_value(a + y, open, c1, c2) == element_value(y, open, c1, c2),
{
    lemma_find_past(a, y, open);
    if let Some(k) = find(y, open) {
        crate::text::lemma_find_some(y, open, k);
        let start = a.len() + k;
        assert((a + y).skip(start) =~= y.skip(k));
        if let Some(gt) = find(y.skip(k), seq!['>']) {
            assert((a + y).skip(start + gt + 1) =~= y.skip(k + gt + 1));
        }
    }
}

/// Searching `a + y` for an attribute that starts nowhere in `a` finds
/// what searching `y` finds.
#[verifier::spinoff_prover]
proof fn lemma_attribute_shift(a: Seq<char>, y: Seq<char>, pat: Seq<char>)
    requires
        starts_past(a, y, pat),
    ensures
        attribute_value(a + y, pat) == attribute_value(y, pat),
        attribute_at_end(a + y, pat) == attribute_at_end(y, pat),
{
    lemma_find_past(a, y, pat);
    if let Some(k) = find(y, pat) {
        assert((a + y).skip(a.len() + k + pat.len()) =~= y.skip(k + pat.len()));
    }
}

/// Reading a tag out of `a + y`, where none of its lookups starts in `a`,
/// reads it out of `y`.
#[verifier::spinoff_prover]
proof fn lemma_tag_value_shift(a: Seq<char>, y: Seq<char>, tag: Seq<char>)
    requires
        starts_past(a, y, open_pattern(tag)),
        starts_past(a, y, open_pattern(local_name(tag))),
        starts_past(a, y, attribute_pattern(tag)),
        starts_past(a, y, attribute_pattern(local_name(tag))),
    ensures
        xmp_tag_value(a + y, tag) == xmp_tag_value(y, tag),
        crate::xmp::xmp_tag_lookup_fails(a + y, tag) == crate::xmp::xmp_tag_lookup_fails(y, tag),
{
    let raw = local_name(tag);
    lemma_element_value_shift(a, y, open_pattern(tag), close_pattern(tag), close_pattern(raw));
    lemma_element_value_shift(a, y, open_pattern(raw), close_pattern(tag), close_pattern(raw));
    lemma_attribute_shift(a, y, attribute_pattern(tag));
    lemma_attribute_shift(a, y, attribute_pattern(raw));
}

/// Reading a bag out of `a + y`, where no opening of it starts in `a`,
/// reads it out of `y`.
#[verifier::spinoff_prover]
proof fn lemma_bag_value_shift(a: Seq<char>, y: Seq<char>, tag: Seq<char>)
    requires
        starts_past(a, y, open_pattern(tag)),
        starts_past(a, y, open_pattern(local_name(tag))),
    ensures
        xmp_bag_value(a + y, tag) == xmp_bag_value(y, tag),
{
    lemma_find_past(a, y, open_pattern(tag));
    lemma_find_past(a, y, open_pattern(local_name(tag)));
    if let Some(s0) = bag_start(y, tag) {
        assert((a + y).skip(a.len() + s0) =~= y.skip(s0));
    }
}

/// An attribute pattern (free of `<`) whose ending starts nowhere in `a`
/// starts nowhere in `a` either, when what follows `a` opens with `<`.
#[verifier::spinoff_prover]
proof fn lemma_starts_past_ending(a: Seq<char>, y: Seq<char>, r: Seq<char>, q: Seq<char>)
    requires
        starts_past(a, y, q),
        q.len() > 0,
        !(r + q).contains('<'),
        y.len() > 0,
        y[0] == '<',
    ensures
        starts_past(a, y, r + q),
{
    let p = r + q;
    assert forall|j: int| 0 <= j < a.len() implies !#[trigger] occurs_at(a + y, p, j) by {
        if occurs_at(a + y, p, j) {
            let w = (a + y).subrange(j, j + p.len());
            if j + r.len() < a.len() {
                let k = j + r.len();
                assert((a + y).subrange(k, k + q.len()) =~= w.subrange(r.len() as int, p.len() as int));
                assert(w.subrange(r.len() as int, p.len() as int) =~= q);
                assert(occurs_at(a + y, q, k));
            } else {
                assert((a + y)[a.len() as int] == '<');
                assert(w[a.len() - j] == (a + y)[a.len() as int]);
                assert(p[a.len() - j] == '<');
            }
        }
    }
}


/// Encoding two texts one after the other encodes each in turn.
proof fn lemma_encode_utf8_concat(a: Seq<char>, b: Seq<char>)
    ensures
        vstd::utf8::encode_utf8(a + b) == vstd::utf8::encode_utf8(a) + vstd::utf8::encode_utf8(b),
    decreases a.len(),
{
    if a.len() == 0 {
        assert(a + b =~= b);
        assert(vstd::utf8::encode_utf8(a) + vstd::utf8::encode_utf8(b) =~= vstd::utf8::encode_utf8(b));
    } else {
        assert((a + b)[0] == a[0]);
        assert((a + b).drop_first() =~= a.drop_first() + b);
        lemma_encode_utf8_concat(a.drop_first(), b);
        assert(vstd::utf8::encode_utf8(a + b) =~= vstd::utf8::encode_utf8(a) + vstd::utf8::encode_utf8(b));
    }
}

/// In the PNG text chunk that carries a packet starting as the packet's
/// head does, the first element marker is the `<x:xmpmeta ` of the head,
/// after its first line, and what follows it is that packet from there on.
#[verifier::spinoff_prover]
proof fn lemma_png_payload_marker(x: Seq<char>)
    requires
        x.len() >= 62,
        x.take(62) == packet_head().take(62),
    ensures
        first_marker(png_xmp_payload(x)) == Some(73int),
        png_xmp_payload(x).skip(73) == vstd::utf8::encode_utf8(x.skip(51)),
{
    broadcast use vstd::utf8::is_ascii_chars_encode_utf8;

    lemma_head_marks();
    let h = packet_head();
    let a = x.take(51);
    let y = x.skip(51);
    let y1 = y.take(11);
    let y2 = y.skip(11);
    assert(x =~= a + y);
    assert(y =~= y1 + y2);
    assert forall|i: int| 0 <= i < 51 implies a[i] == h[i] by {
        assert(a[i] == x.take(62)[i]);
    }
    assert forall|i: int| 0 <= i < 11 implies y1[i] == h[51 + i] by {
        assert(y1[i] == x.take(62)[51 + i]);
    }
    assert forall|i: int| 0 <= i < a.len() implies '\0' <= #[trigger] a[i] <= '\u{7f}' by {
        assert(a[i] == h[i]);
        assert('\0' <= h[i] <= '\u{7f}');
    }
    assert forall|i: int| 0 <= i < y1.len() implies '\0' <= #[trigger] y1[i] <= '\u{7f}' by {
        assert(y1[i] == h[51 + i]);
    }
    assert(vstd::utf8::is_ascii_chars(a));
    assert(vstd::utf8::is_ascii_chars(y1));
    lemma_encode_utf8_concat(a, y);
    lemma_encode_utf8_concat(y1, y2);
    let ea = vstd::utf8::encode_utf8(a);
    let ey1 = vstd::utf8::encode_utf8(y1);
    let ey = vstd::utf8::encode_utf8(y);
    let kz = png_keyword() + seq![0u8, 0u8, 0u8, 0u8];
    let pl = png_xmp_payload(x);
    assert(pl =~= kz + (ea + (ey1 + vstd::utf8::encode_utf8(y2))));
    assert(ea.len() == 51);
    assert(ey1.len() == 11);
    assert forall|i: int| 0 <= i < 11 implies pl[73 + i] == ey1[i] by {}
    assert(pl.subrange(73, 84) =~= xmpmeta_open());
    assert forall|j: int| 0 <= j < 73 implies !marker_at(pl, j) by {
        if marker_at(pl, j) {
            assert(pl.subrange(j, j + 11)[0] == xmpmeta_open()[0]);
            assert(pl.subrange(j, j + 11)[1] == xmpmeta_open()[1]);
            assert(pl[j] == 0x3cu8);
            if j >= 22 {
                assert(pl[j] == ea[j - 22]);
                assert(ea[j - 22] == a[j - 22] as u8);
                assert(h[j - 22] == '<');
                assert(pl[j + 1] == ea[1]);
            }
        }
    }
    assert(first_marker_at(pl, 73));
    lemma_first_marker_is(pl, 73);
    assert(pl.skip(73) =~= ey);
}


/// A difference found within the first `n` characters is found in them
/// alone.
proof fn lemma_differs_within_take(s: Seq<char>, n: int, p: Seq<char>, j: int, i: int)
    requires
        differs_within(s, p, j, i),
        0 <= j,
        j + p.len() <= n <= s.len(),
    ensures
        differs_within(s.take(n), p, j, i),
    decreases p.len() - i,
{
    if s[j + i] == p[i] {
        lemma_differs_within_take(s, n, p, j, i + 1);
    }
}

/// None of the lookups of a tag starts in the first line of the packet
/// (its `<?xpacket ...?>` declaration), whatever follows that line with a
/// `<`.
#[verifier::spinoff_prover]
proof fn lemma_first_line_starts_past(y: Seq<char>, tag: Seq<char>, prefix: Seq<char>, local: Seq<char>)
    requires
        y.len() > 0,
        y[0] == '<',
        tag == prefix + local,
        local_name(tag) == local,
        tag.len() > 0 && tag[0] != '?',
        local.len() > 0 && local[0] != '?',
        !tag.contains('<'),
        forall|q: int| 0 <= q < packet_head().len() && packet_head()[q] == '=' && q + 1 >= attribute_pattern(local).len()
            ==> differs_within(packet_head(), attribute_pattern(local), q + 1 - attribute_pattern(local).len(), 0),
    ensures
        starts_past(packet_head().take(51), y, open_pattern(tag)),
        starts_past(packet_head().take(51), y, open_pattern(local)),
        starts_past(packet_head().take(51), y, attribute_pattern(local)),
        starts_past(packet_head().take(51), y, attribute_pattern(tag)),
{
    lemma_head_marks();
    let h = packet_head();
    let a = h.take(51);
    assert(a[0] == '<' && a[1] == '?');
    assert forall|j: int| 0 <= j < 51 && a[j] == '<' implies differs_within(a, open_pattern(tag), j, 0) by {
        assert(a[j] == h[j]);
        reveal_with_fuel(differs_within, 3);
    }
    lemma_starts_past_tags(a, y, open_pattern(tag), 51);
    assert forall|j: int| 0 <= j < 51 && a[j] == '<' implies differs_within(a, open_pattern(local), j, 0) by {
        assert(a[j] == h[j]);
        reveal_with_fuel(differs_within, 3);
    }
    lemma_starts_past_tags(a, y, open_pattern(local), 51);
    let q = attribute_pattern(local);
    assert(y =~= y.take(1) + y.skip(1));
    lemma_eq_after_lt_tag(y.take(1), y.skip(1));
    if q.contains('<') {
        let k = choose|k: int| 0 <= k < q.len() && q[k] == '<';
        assert(tag[prefix.len() + k] == '<');
    }
    assert forall|qq: int| 0 <= qq < a.len() && a[qq] == '=' && qq + 1 >= q.len() implies differs_within(
        a,
        q,
        qq + 1 - q.len(),
        0,
    ) by {
        assert(a[qq] == h[qq]);
        lemma_differs_within_take(h, 51, q, qq + 1 - q.len(), 0);
    }
    lemma_starts_past_attr(a, y, q);
    assert(prefix + q =~= attribute_pattern(tag));
    lemma_starts_past_ending(a, y, prefix, q);
}


/// The reading of a tag out of the packet is its reading out of the
/// packet's text from its `<x:xmpmeta ` element on.
#[verifier::spinoff_prover]
proof fn lemma_tag_read_from_element(x: Seq<char>, tag: Seq<char>, prefix: Seq<char>, local: Seq<char>)
    requires
        x.len() >= 62,
        x.take(62) == packet_head().take(62),
        tag == prefix + local,
        local_name(tag) == local,
        tag.len() > 0 && tag[0] != '?',
        local.len() > 0 && local[0] != '?',
        !tag.contains('<'),
        forall|q: int| 0 <= q < packet_head().len() && packet_head()[q] == '=' && q + 1 >= attribute_pattern(local).len()
            ==> differs_within(packet_head(), attribute_pattern(local), q + 1 - attribute_pattern(local).len(), 0),
    ensures
        xmp_tag_value(x.skip(51), tag) == xmp_tag_value(x, tag),
        crate::xmp::xmp_tag_lookup_fails(x.skip(51), tag) == crate::xmp::xmp_tag_lookup_fails(x, tag),
{
    lemma_head_marks();
    let a = x.take(51);
    let y = x.skip(51);
    assert(x =~= a + y);
    assert(a =~= packet_head().take(51)) by {
        assert forall|i: int| 0 <= i < 51 implies a[i] == packet_head().take(51)[i] by {
            assert(a[i] == x.take(62)[i]);
        }
    }
    assert(y[0] == x.take(62)[51]);
    lemma_first_line_starts_past(y, tag, prefix, local);
    lemma_tag_value_shift(a, y, tag);
}

/// Law: the place values and people that "Apply" writes into a PNG file
/// come back when the file is read again.  Where the new file holds the
/// chunks with the packet replaced (as `write_xmp_into_png` gives them,
/// unless the trailer comes before the new chunk), reading its packet
/// gives the packet written from its `<x:xmpmeta ` element on (a PNG
/// packet is read from that element), and from that text the values read
/// back as [`law_packet_read_back`] says they do from the whole packet.
#[verifier::spinoff_prover]
pub proof fn law_png_file_read_back(
    chunks: Seq<ChunkModel>,
    out: Seq<u8>,
    city: Seq<char>,
    state: Seq<char>,
    country: Seq<char>,
    location: Seq<char>,
    people: Seq<char>,
)
    requires
        trim(city) == city && !city.contains('<'),
        trim(state) == state && !state.contains('<'),
        trim(country) == country && !country.contains('<'),
        trim(location) == location && !location.contains('<'),
        !people.contains('<'),
    ensures
        png_decode(out) == Some(
            png_with_xmp(chunks, png_xmp_payload(xmp_packet(city, state, country, location, people_items(people)))),
        ) ==> ({
            let y = xmp_packet(city, state, country, location, people_items(people)).skip(51);
            &&& png_xmp(out) == Some(y)
            &&& city.len() > 0 || values_free_of_eq(city, state, country, location, people) ==> xmp_tag_value(
                y,
                "photoshop:City"@,
            ) == city
            &&& state.len() > 0 || values_free_of_eq(city, state, country, location, people) ==> xmp_tag_value(
                y,
                "photoshop:State"@,
            ) == state
            &&& country.len() > 0 || values_free_of_eq(city, state, country, location, people) ==> xmp_tag_value(
                y,
                "photoshop:Country"@,
            ) == country
            &&& location.len() > 0 || values_free_of_eq(city, state, country, location, people) ==> xmp_tag_value(
                y,
                "iptcCore:Location"@,
            ) == location
            &&& xmp_bag_value(y, "dc:subject"@) == join(person_names(people), item_separator())
        }),
{
    let x = xmp_packet(city, state, country, location, people_items(people));
    lemma_packet_starts_with_head(x, city, state, country, location, people_items(people));
    law_png_packet_read_back(chunks, x);
    lemma_png_packet_text(x);
    law_packet_read_back(city, state, country, location, people);
    lemma_places_read_from_element(x);
    lemma_bag_read_from_element(x);
}

/// The place values read out of the packet's text from its `<x:xmpmeta `
/// element on are those read out of the whole packet.
#[verifier::spinoff_prover]
proof fn lemma_places_read_from_element(x: Seq<char>)
    requires
        x.len() >= 62,
        x.take(62) == packet_head().take(62),
    ensures
        xmp_tag_value(x.skip(51), "photoshop:City"@) == xmp_tag_value(x, "photoshop:City"@),
        xmp_tag_value(x.skip(51), "photoshop:State"@) == xmp_tag_value(x, "photoshop:State"@),
        xmp_tag_value(x.skip(51), "photoshop:Country"@) == xmp_tag_value(x, "photoshop:Country"@),
        xmp_tag_value(x.skip(51), "iptcCore:Location"@) == xmp_tag_value(x, "iptcCore:Location"@),
{
    lemma_local_names();
    lemma_head_marks();
    reveal_strlit("photoshop:City");
    reveal_strlit("photoshop:State");
    reveal_strlit("photoshop:Country");
    reveal_strlit("iptcCore:Location");
    reveal_strlit("City");
    reveal_strlit("State");
    reveal_strlit("Country");
    reveal_strlit("Location");
    lemma_tag_read_from_element(x, "photoshop:City"@, "photoshop:"@, "City"@);
    lemma_tag_read_from_element(x, "photoshop:State"@, "photoshop:"@, "State"@);
    lemma_tag_read_from_element(x, "photoshop:Country"@, "photoshop:"@, "Country"@);
    lemma_tag_read_from_element(x, "iptcCore:Location"@, "iptcCore:"@, "Location"@);
}

/// The packet opens with its head.
#[verifier::spinoff_prover]
proof fn lemma_packet_starts_with_head(
    x: Seq<char>,
    city: Seq<char>,
    state: Seq<char>,
    country: Seq<char>,
    location: Seq<char>,
    items: Seq<char>,
)
    requires
        x == xmp_packet(city, state, country, location, items),
    ensures
        x.len() >= 62,
        x.take(62) == packet_head().take(62),
{
    lemma_head_marks();
    assert(x.take(62) =~= packet_head().take(62));
}

/// The packet that the PNG text chunk carries is read from its
/// `<x:xmpmeta ` element on.
#[verifier::spinoff_prover]
proof fn lemma_png_packet_text(x: Seq<char>)
    requires
        x.len() >= 62,
        x.take(62) == packet_head().take(62),
    ensures
        png_chunk_xmp(itxt_kind(), png_xmp_payload(x)) == Some(x.skip(51)),
{
    broadcast use vstd::utf8::encode_utf8_valid_utf8, vstd::utf8::encode_utf8_decode_utf8;

    lemma_png_payload_marker(x);
}

/// The reading of the people out of the packet is their reading out of
/// the packet's text from its `<x:xmpmeta ` element on.
#[verifier::spinoff_prover]
proof fn lemma_bag_read_from_element(x: Seq<char>)
    requires
        x.len() >= 62,
        x.take(62) == packet_head().take(62),
    ensures
        xmp_bag_value(x.skip(51), "dc:subject"@) == xmp_bag_value(x, "dc:subject"@),
{
    lemma_head_marks();
    let a = x.take(51);
    let y = x.skip(51);
    assert(x =~= a + y);
    reveal_strlit("dc:subject");
    reveal_strlit("subject");
    assert(local_name("dc:subject"@) =~= "subject"@) by {
        reveal_with_fuel(local_name, 9);
    }
    assert forall|j: int| 0 <= j < 51 && a[j] == '<' implies differs_within(a, open_pattern("dc:subject"@), j, 0) by {
        assert(a[j] == x.take(62)[j]);
        assert(a[1] == x.take(62)[1]);
        reveal_with_fuel(differs_within, 3);
    }
    lemma_starts_past_tags(a, y, open_pattern("dc:subject"@), 51);
    assert forall|j: int| 0 <= j < 51 && a[j] == '<' implies differs_within(a, open_pattern("subject"@), j, 0) by {
        assert(a[j] == x.take(62)[j]);
        assert(a[1] == x.take(62)[1]);
        reveal_with_fuel(differs_within, 3);
    }
    lemma_starts_past_tags(a, y, open_pattern("subject"@), 51);
    lemma_bag_value_shift(a, y, "dc:subject"@);
}

} // verus!
