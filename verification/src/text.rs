//! Character-level text primitives shared by the XMP parser and the
//! metadata planner: whitespace trimming, substring search, joining.

use vstd::prelude::*;

verus! {

broadcast use vstd::string::group_string_axioms;

/// Unicode `White_Space` characters: the set that `str::trim` and
/// `str::split_whitespace` strip.
pub open spec fn is_white_space(c: char) -> bool {
    ||| ('\u{9}' <= c && c <= '\u{d}')
    ||| c == ' '
    ||| c == '\u{85}'
    ||| c == '\u{a0}'
    ||| c == '\u{1680}'
    ||| ('\u{2000}' <= c && c <= '\u{200a}')
    ||| c == '\u{2028}'
    ||| c == '\u{2029}'
    ||| c == '\u{202f}'
    ||| c == '\u{205f}'
    ||| c == '\u{3000}'
}

/// `s` without its leading whitespace.
pub open spec fn trim_start(s: Seq<char>) -> Seq<char>
    decreases s.len(),
{
    if s.len() > 0 && is_white_space(s[0]) {
        trim_start(s.drop_first())
    } else {
        s
    }
}

/// `s` without its trailing whitespace.
pub open spec fn trim_end(s: Seq<char>) -> Seq<char>
    decreases s.len(),
{
    if s.len() > 0 && is_white_space(s.last()) {
        trim_end(s.drop_last())
    } else {
        s
    }
}

/// `s` without leading and trailing whitespace.
pub open spec fn trim(s: Seq<char>) -> Seq<char> {
    trim_end(trim_start(s))
}

/// Trimming the start drops a prefix, and what is left starts, if at all,
/// with a non-blank.
pub proof fn lemma_trim_start_skip(s: Seq<char>) -> (n: int)
    ensures
        0 <= n <= s.len(),
        trim_start(s) == s.skip(n),
        trim_start(s).len() > 0 ==> !is_white_space(trim_start(s)[0]),
    decreases s.len(),
{
    if s.len() > 0 && is_white_space(s[0]) {
        let m = lemma_trim_start_skip(s.drop_first());
        assert(s.drop_first().skip(m) =~= s.skip(m + 1));
        m + 1
    } else {
        assert(s.skip(0) =~= s);
        0
    }
}

/// Trimming the end drops a suffix, and what is left ends, if at all, with
/// a non-blank.
pub proof fn lemma_trim_end_take(s: Seq<char>) -> (m: int)
    ensures
        0 <= m <= s.len(),
        trim_end(s) == s.take(m),
        trim_end(s).len() > 0 ==> !is_white_space(trim_end(s).last()),
    decreases s.len(),
{
    if s.len() > 0 && is_white_space(s.last()) {
        let k = lemma_trim_end_take(s.drop_last());
        assert(s.drop_last().take(k) =~= s.take(k));
        k
    } else {
        assert(s.take(s.len() as int) =~= s);
        s.len() as int
    }
}

/// Trimming twice is trimming once.
pub proof fn lemma_trim_idempotent(s: Seq<char>)
    ensures
        trim(trim(s)) == trim(s),
{
    let t = trim_start(s);
    let n = lemma_trim_start_skip(s);
    let m = lemma_trim_end_take(t);
    let u = trim_end(t);
    if u.len() > 0 {
        assert(u[0] == t[0]);
        assert(trim_start(u) == u);
        assert(trim_end(u) == u);
    } else {
        assert(trim_start(u) == u);
        assert(trim_end(u) == u);
    }
}

/// What trimming leaves holds only characters of the text.
pub proof fn lemma_trim_contains(s: Seq<char>, c: char)
    requires
        trim(s).contains(c),
    ensures
        s.contains(c),
{
    let n = lemma_trim_start_skip(s);
    let m = lemma_trim_end_take(trim_start(s));
    let i = choose|i: int| 0 <= i < trim(s).len() && trim(s)[i] == c;
    assert(s[n + i] == c);
}

/// `p` occurs in `s` starting at index `i`.
pub open spec fn occurs_at(s: Seq<char>, p: Seq<char>, i: int) -> bool {
    0 <= i && i + p.len() <= s.len() && s.subrange(i, i + p.len()) == p
}

/// `i` is the first index at which `p` occurs in `s`.
pub open spec fn first_occurrence(s: Seq<char>, p: Seq<char>, i: int) -> bool {
    &&& occurs_at(s, p, i)
    &&& forall|j: int| 0 <= j < i ==> !occurs_at(s, p, j)
}

/// The index of the first occurrence of `p` in `s`, if any.
pub open spec fn find(s: Seq<char>, p: Seq<char>) -> Option<int> {
    if exists|i: int| first_occurrence(s, p, i) {
        Some(choose|i: int| first_occurrence(s, p, i))
    } else {
        None
    }
}

/// The first occurrence is unique, so it is what `find` gives.
pub proof fn lemma_find_is(s: Seq<char>, p: Seq<char>, i: int)
    requires
        first_occurrence(s, p, i),
    ensures
        find(s, p) == Some(i),
{
    let c = choose|k: int| first_occurrence(s, p, k);
    assert(first_occurrence(s, p, c));
    if c < i {
        assert(!occurs_at(s, p, c));
    } else if c > i {
        assert(!occurs_at(s, p, i));
    }
}

/// Where `p` occurs nowhere, `find` gives nothing.
pub proof fn lemma_find_none(s: Seq<char>, p: Seq<char>)
    requires
        forall|j: int| !occurs_at(s, p, j),
    ensures
        find(s, p) is None,
{
}

/// Wherever `p` occurs, `find` gives an occurrence, and none later than
/// that one.
pub proof fn lemma_find_some(s: Seq<char>, p: Seq<char>, i: int)
    requires
        occurs_at(s, p, i),
    ensures
        find(s, p) is Some,
        find(s, p)->0 <= i,
    decreases i,
{
    if exists|j: int| 0 <= j < i && occurs_at(s, p, j) {
        let j = choose|j: int| 0 <= j < i && occurs_at(s, p, j);
        lemma_find_some(s, p, j);
    } else {
        lemma_find_is(s, p, i);
    }
}

/// `p` occurs at `k` in `b` exactly where it occurs at `a.len() + k` in
/// `a + b`.
pub proof fn lemma_occurs_shift(a: Seq<char>, b: Seq<char>, p: Seq<char>, k: int)
    requires
        0 <= k,
    ensures
        occurs_at(a + b, p, a.len() + k) <==> occurs_at(b, p, k),
{
    if k + p.len() <= b.len() {
        assert((a + b).subrange(a.len() + k, a.len() + k + p.len()) =~= b.subrange(k, k + p.len()));
    }
}

/// `p` starts nowhere inside `a` in `a + b`.
pub open spec fn starts_past(a: Seq<char>, b: Seq<char>, p: Seq<char>) -> bool {
    forall|j: int| 0 <= j < a.len() ==> !#[trigger] occurs_at(a + b, p, j)
}

/// Searching `a + b` for what starts nowhere inside `a` is searching `b`.
pub proof fn lemma_find_past(a: Seq<char>, b: Seq<char>, p: Seq<char>)
    requires
        starts_past(a, b, p),
    ensures
        find(a + b, p) == (match find(b, p) {
            Some(k) => Some(a.len() + k),
            None => None,
        }),
{
    match find(b, p) {
        Some(k) => {
            assert(first_occurrence(b, p, k));
            lemma_occurs_shift(a, b, p, k);
            assert forall|j: int| 0 <= j < a.len() + k implies !occurs_at(a + b, p, j) by {
                if j >= a.len() {
                    lemma_occurs_shift(a, b, p, j - a.len());
                }
            }
            lemma_find_is(a + b, p, a.len() + k);
        },
        None => {
            assert forall|j: int| !occurs_at(a + b, p, j) by {
                if 0 <= j && j >= a.len() {
                    lemma_occurs_shift(a, b, p, j - a.len());
                    if occurs_at(b, p, j - a.len()) {
                        lemma_find_some(b, p, j - a.len());
                    }
                }
            }
            lemma_find_none(a + b, p);
        },
    }
}

/// Where `p` starts nowhere inside `a` nor inside `b`, it starts nowhere
/// inside `a + b`.
pub proof fn lemma_starts_past_concat(a: Seq<char>, b: Seq<char>, c: Seq<char>, p: Seq<char>)
    requires
        starts_past(a, b + c, p),
        starts_past(b, c, p),
    ensures
        starts_past(a + b, c, p),
{
    assert((a + b) + c =~= a + (b + c));
    assert forall|j: int| 0 <= j < (a + b).len() implies !occurs_at((a + b) + c, p, j) by {
        if j >= a.len() {
            lemma_occurs_shift(a, b + c, p, j - a.len());
        }
    }
}

/// A text without the first character of `p` holds no start of it.
pub proof fn lemma_starts_past_without(a: Seq<char>, b: Seq<char>, p: Seq<char>)
    requires
        p.len() > 0,
        !a.contains(p[0]),
    ensures
        starts_past(a, b, p),
{
    assert forall|j: int| 0 <= j < a.len() implies !occurs_at(a + b, p, j) by {
        if occurs_at(a + b, p, j) {
            assert((a + b).subrange(j, j + p.len())[0] == p[0]);
            assert(a[j] == p[0]);
        }
    }
}

/// Occurrences inside a suffix are occurrences in the whole, shifted.
pub proof fn lemma_occurs_in_suffix(s: Seq<char>, p: Seq<char>, from: int, k: int)
    requires
        0 <= from <= s.len(),
    ensures
        occurs_at(s.subrange(from, s.len() as int), p, k) <==> (0 <= k && occurs_at(s, p, from + k)),
{
    let t = s.subrange(from, s.len() as int);
    if 0 <= k && k + p.len() <= t.len() {
        assert(t.subrange(k, k + p.len()) =~= s.subrange(from + k, from + k + p.len()));
    }
}

/// The characters of a string slice.
pub fn chars_of(s: &str) -> (v: Vec<char>)
    ensures
        v@ == s@,
{
    let mut v: Vec<char> = Vec::new();
    for c in it: s.chars()
        invariant
            v@ == it.seq().take(it.index() as int),
            it.seq() == s@,
    {
        v.push(c);
    }
    v
}

/// Appends one character (`String::push`).
#[verifier::external_body]
fn push_char(s: &mut String, c: char)
    ensures
        final(s)@ == old(s)@.push(c),
{
    s.push(c);
}

/// The string made of the given characters.
pub fn string_of(v: &Vec<char>) -> (s: String)
    ensures
        s@ == v@,
{
    let mut s = String::new();
    let mut i: usize = 0;
    while i < v.len()
        invariant
            i <= v.len(),
            s@ == v@.take(i as int),
        decreases v.len() - i,
    {
        push_char(&mut s, v[i]);
        assert(v@.take(i + 1) =~= v@.take(i as int).push(v@[i as int]));
        i = i + 1;
    }
    assert(v@.take(v.len() as int) =~= v@);
    s
}

/// A copy of `v[from..to]`.
pub fn slice_chars(v: &Vec<char>, from: usize, to: usize) -> (r: Vec<char>)
    requires
        from <= to <= v.len(),
    ensures
        r@ == v@.subrange(from as int, to as int),
{
    let mut r: Vec<char> = Vec::new();
    let mut i: usize = from;
    while i < to
        invariant
            from <= i <= to <= v.len(),
            r@ == v@.subrange(from as int, i as int),
        decreases to - i,
    {
        r.push(v[i]);
        assert(v@.subrange(from as int, i + 1) =~= v@.subrange(from as int, i as int).push(v@[i as int]));
        i = i + 1;
    }
    r
}

/// `p` occurs in `s` at index `i`.
pub fn matches_at(s: &Vec<char>, p: &Vec<char>, i: usize) -> (b: bool)
    ensures
        b == occurs_at(s@, p@, i as int),
{
    if i > s.len() || p.len() > s.len() - i {
        return false;
    }
    let mut k: usize = 0;
    while k < p.len()
        invariant
            i + p.len() <= s.len(),
            k <= p.len(),
            forall|j: int| 0 <= j < k ==> s@[i + j] == p@[j],
        decreases p.len() - k,
    {
        if s[i + k] != p[k] {
            assert(s@.subrange(i as int, i + p.len())[k as int] != p@[k as int]);
            return false;
        }
        k = k + 1;
    }
    assert(s@.subrange(i as int, i + p.len()) =~= p@);
    true
}

/// The first occurrence of `p` in `s[from..]`, as an index into `s`.
pub fn find_from(s: &Vec<char>, from: usize, p: &Vec<char>) -> (r: Option<usize>)
    requires
        from <= s.len(),
    ensures
        match find(s@.subrange(from as int, s.len() as int), p@) {
            Some(k) => r == Some((from + k) as usize),
            None => r is None,
        },
{
    let ghost t = s@.subrange(from as int, s.len() as int);
    let mut i: usize = from;
    while p.len() <= s.len() - i
        invariant
            from <= i <= s.len(),
            t == s@.subrange(from as int, s.len() as int),
            forall|j: int| from <= j < i ==> !occurs_at(s@, p@, j),
        decreases s.len() - i,
    {
        if matches_at(s, p, i) {
            proof {
                lemma_occurs_in_suffix(s@, p@, from as int, i - from);
                assert forall|j: int| 0 <= j < i - from implies !occurs_at(t, p@, j) by {
                    lemma_occurs_in_suffix(s@, p@, from as int, j);
                }
                lemma_find_is(t, p@, i - from);
            }
            return Some(i);
        }
        assert(i < s.len()) by {
            if i == s.len() {
                assert(s@.subrange(i as int, i as int) =~= p@);
            }
        }
        i = i + 1;
    }
    proof {
        assert forall|j: int| !occurs_at(t, p@, j) by {
            lemma_occurs_in_suffix(s@, p@, from as int, j);
        }
        lemma_find_none(t, p@);
    }
    None
}

/// The bounds `(lo, hi)` of `trim(s[from..to])` inside `s`.
pub fn trim_bounds(s: &Vec<char>, from: usize, to: usize) -> (r: (usize, usize))
    requires
        from <= to <= s.len(),
    ensures
        from <= r.0 <= r.1 <= to,
        s@.subrange(r.0 as int, r.1 as int) == trim(s@.subrange(from as int, to as int)),
{
    let mut lo: usize = from;
    while lo < to && is_white_space_char(s[lo])
        invariant
            from <= lo <= to <= s.len(),
            trim_start(s@.subrange(from as int, to as int)) == trim_start(s@.subrange(lo as int, to as int)),
        decreases to - lo,
    {
        assert(s@.subrange(lo as int, to as int).drop_first() =~= s@.subrange(lo + 1, to as int));
        lo = lo + 1;
    }
    assert(trim_start(s@.subrange(lo as int, to as int)) == s@.subrange(lo as int, to as int));
    let mut hi: usize = to;
    while hi > lo && is_white_space_char(s[hi - 1])
        invariant
            from <= lo <= hi <= to <= s.len(),
            trim_end(s@.subrange(lo as int, to as int)) == trim_end(s@.subrange(lo as int, hi as int)),
        decreases hi - lo,
    {
        assert(s@.subrange(lo as int, hi as int).drop_last() =~= s@.subrange(lo as int, hi - 1));
        hi = hi - 1;
    }
    (lo, hi)
}

/// Whether `c` is a Unicode `White_Space` character.
pub fn is_white_space_char(c: char) -> (b: bool)
    ensures
        b == is_white_space(c),
{
    ('\u{9}' <= c && c <= '\u{d}') || c == ' ' || c == '\u{85}' || c == '\u{a0}'
        || c == '\u{1680}' || ('\u{2000}' <= c && c <= '\u{200a}') || c == '\u{2028}'
        || c == '\u{2029}' || c == '\u{202f}' || c == '\u{205f}' || c == '\u{3000}'
}

/// Whether `c` occurs in `v[from..to]`.
pub fn contains_char(v: &Vec<char>, from: usize, to: usize, c: char) -> (b: bool)
    requires
        from <= to <= v.len(),
    ensures
        b == v@.subrange(from as int, to as int).contains(c),
{
    let mut i: usize = from;
    while i < to
        invariant
            from <= i <= to <= v.len(),
            forall|j: int| from <= j < i ==> v@[j] != c,
        decreases to - i,
    {
        if v[i] == c {
            assert(v@.subrange(from as int, to as int)[i - from] == c);
            return true;
        }
        i = i + 1;
    }
    false
}

/// Characters `a` and `b` are the same letter up to ASCII case.
pub open spec fn same_ignoring_ascii_case(a: char, b: char) -> bool {
    ||| a == b
    ||| ('A' <= a && a <= 'Z' && (b as u32) == (a as u32) + 32)
    ||| ('A' <= b && b <= 'Z' && (a as u32) == (b as u32) + 32)
}

/// `s` equals `t` up to ASCII case.
pub open spec fn eq_ignoring_ascii_case(s: Seq<char>, t: Seq<char>) -> bool {
    s.len() == t.len() && forall|i: int| 0 <= i < s.len() ==> same_ignoring_ascii_case(#[trigger] s[i], t[i])
}

/// Whether `s` equals `t` up to ASCII case.
pub fn equals_ignoring_ascii_case(s: &Vec<char>, t: &Vec<char>) -> (b: bool)
    ensures
        b == eq_ignoring_ascii_case(s@, t@),
{
    if s.len() != t.len() {
        return false;
    }
    let mut i: usize = 0;
    while i < s.len()
        invariant
            i <= s.len() == t.len(),
            forall|j: int| 0 <= j < i ==> same_ignoring_ascii_case(#[trigger] s@[j], t@[j]),
        decreases s.len() - i,
    {
        let a = s[i];
        let c = t[i];
        let same = a == c || ('A' <= a && a <= 'Z' && (c as u32) == (a as u32) + 32)
            || ('A' <= c && c <= 'Z' && (a as u32) == (c as u32) + 32);
        if !same {
            return false;
        }
        i = i + 1;
    }
    true
}

/// `a` sorts no later than `b`: lexicographic order by code point.
pub open spec fn lex_le(a: Seq<char>, b: Seq<char>) -> bool
    decreases a.len(),
{
    if a.len() == 0 {
        true
    } else if b.len() == 0 {
        false
    } else if a[0] != b[0] {
        a[0] < b[0]
    } else {
        lex_le(a.drop_first(), b.drop_first())
    }
}

/// Any two texts are ordered one way or the other.
pub proof fn lemma_lex_total(a: Seq<char>, b: Seq<char>)
    ensures
        lex_le(a, b) || lex_le(b, a),
    decreases a.len(),
{
    if a.len() > 0 && b.len() > 0 && a[0] == b[0] {
        lemma_lex_total(a.drop_first(), b.drop_first());
    }
}

/// The order is transitive.
pub proof fn lemma_lex_transitive(a: Seq<char>, b: Seq<char>, c: Seq<char>)
    requires
        lex_le(a, b),
        lex_le(b, c),
    ensures
        lex_le(a, c),
    decreases a.len(),
{
    if a.len() > 0 && b.len() > 0 && c.len() > 0 && a[0] == b[0] && b[0] == c[0] {
        lemma_lex_transitive(a.drop_first(), b.drop_first(), c.drop_first());
    }
}

/// Texts ordered both ways are equal.
pub proof fn lemma_lex_antisymmetric(a: Seq<char>, b: Seq<char>)
    requires
        lex_le(a, b),
        lex_le(b, a),
    ensures
        a == b,
    decreases a.len(),
{
    if a.len() > 0 && b.len() > 0 {
        lemma_lex_antisymmetric(a.drop_first(), b.drop_first());
        assert(a =~= seq![a[0]] + a.drop_first());
        assert(b =~= seq![b[0]] + b.drop_first());
    }
}

/// Whether `a` sorts no later than `b`.
pub fn lex_le_chars(a: &Vec<char>, b: &Vec<char>) -> (r: bool)
    ensures
        r == lex_le(a@, b@),
{
    let mut i: usize = 0;
    assert(a@.skip(0) =~= a@);
    assert(b@.skip(0) =~= b@);
    while i < a.len() && i < b.len() && a[i] == b[i]
        invariant
            i <= a.len(),
            i <= b.len(),
            lex_le(a@, b@) == lex_le(a@.skip(i as int), b@.skip(i as int)),
        decreases a.len() - i,
    {
        assert(a@.skip(i as int).drop_first() =~= a@.skip(i + 1));
        assert(b@.skip(i as int).drop_first() =~= b@.skip(i + 1));
        i = i + 1;
    }
    if i == a.len() {
        true
    } else if i == b.len() {
        false
    } else {
        a[i] < b[i]
    }
}

/// The decimal digit of `d`.
pub open spec fn digit_char(d: nat) -> char {
    if d == 0 { '0' } else if d == 1 { '1' } else if d == 2 { '2' } else if d == 3 { '3' }
    else if d == 4 { '4' } else if d == 5 { '5' } else if d == 6 { '6' } else if d == 7 { '7' }
    else if d == 8 { '8' } else { '9' }
}

/// `n` written in decimal, without leading zeros.
pub open spec fn decimal(n: nat) -> Seq<char>
    decreases n,
{
    if n < 10 {
        seq![digit_char(n)]
    } else {
        decimal(n / 10).push(digit_char(n % 10))
    }
}

fn digit_of(d: u64) -> (c: char)
    requires
        d < 10,
    ensures
        c == digit_char(d as nat),
{
    if d == 0 { '0' } else if d == 1 { '1' } else if d == 2 { '2' } else if d == 3 { '3' }
    else if d == 4 { '4' } else if d == 5 { '5' } else if d == 6 { '6' } else if d == 7 { '7' }
    else if d == 8 { '8' } else { '9' }
}

/// `n` written in decimal.
pub fn decimal_chars(n: u64) -> (r: Vec<char>)
    ensures
        r@ == decimal(n as nat),
{
    let mut m: u64 = n;
    let mut suffix: Vec<char> = Vec::new();
    loop
        invariant
            decimal(n as nat) == decimal(m as nat) + suffix@,
        decreases m,
    {
        let d = digit_of(m % 10);
        if m < 10 {
            let ghost before = suffix@;
            suffix.insert(0, d);
            assert(decimal(m as nat) + before =~= suffix@);
            return suffix;
        }
        let ghost before = suffix@;
        suffix.insert(0, d);
        assert(decimal(m as nat) == decimal((m / 10) as nat).push(digit_char((m % 10) as nat)));
        assert(decimal((m / 10) as nat).push(d) + before =~= decimal((m / 10) as nat) + suffix@);
        m = m / 10;
    }
}

/// `c` is an ASCII decimal digit.
pub open spec fn is_digit(c: char) -> bool {
    '0' <= c && c <= '9'
}

/// The value of an ASCII decimal digit.
pub open spec fn digit_value(c: char) -> nat {
    ((c as u32) - ('0' as u32)) as nat
}

/// The value of a string of decimal digits.
pub open spec fn digits_value(s: Seq<char>) -> nat
    decreases s.len(),
{
    if s.len() == 0 {
        0
    } else {
        digits_value(s.drop_last()) * 10 + digit_value(s.last())
    }
}

/// The digits of an unsigned number as text: without a leading `+`.
pub open spec fn unsigned_digits(s: Seq<char>) -> Seq<char> {
    if s.len() > 0 && s[0] == '+' {
        s.drop_first()
    } else {
        s
    }
}

/// What `str::parse::<u32>` gives for `s`: an optional `+` followed by
/// one or more decimal digits whose value fits in 32 bits.
pub open spec fn parse_u32_spec(s: Seq<char>) -> Option<u32> {
    let d = unsigned_digits(s);
    if d.len() > 0 && (forall|i: int| 0 <= i < d.len() ==> #[trigger] is_digit(d[i]))
        && digits_value(d) <= u32::MAX {
        Some(digits_value(d) as u32)
    } else {
        None
    }
}

/// A larger prefix of digits has no smaller value.
proof fn lemma_digits_value_grows(s: Seq<char>, i: int)
    requires
        0 <= i <= s.len(),
    ensures
        digits_value(s.take(i)) <= digits_value(s),
    decreases s.len() - i,
{
    if i < s.len() {
        lemma_digits_value_grows(s, i + 1);
        assert(s.take(i + 1).drop_last() =~= s.take(i));
    } else {
        assert(s.take(i) =~= s);
    }
}

/// Parses `s[from..to]` as a `u32` the way `str::parse::<u32>` does.
pub fn parse_u32_chars(s: &Vec<char>, from: usize, to: usize) -> (r: Option<u32>)
    requires
        from <= to <= s.len(),
    ensures
        r == parse_u32_spec(s@.subrange(from as int, to as int)),
{
    let ghost t = s@.subrange(from as int, to as int);
    let mut start = from;
    if start < to && s[start] == '+' {
        start = start + 1;
    }
    let ghost d = unsigned_digits(t);
    assert(d =~= s@.subrange(start as int, to as int));
    if start == to {
        return None;
    }
    let mut acc: u64 = 0;
    let mut i: usize = start;
    assert(d.take(0) =~= Seq::<char>::empty());
    while i < to
        invariant
            from <= start <= i <= to <= s.len(),
            start < to,
            t == s@.subrange(from as int, to as int),
            d == unsigned_digits(t),
            d == s@.subrange(start as int, to as int),
            forall|j: int| 0 <= j < i - start ==> #[trigger] is_digit(d[j]),
            acc as nat == digits_value(d.take(i - start)),
            acc <= u32::MAX,
        decreases to - i,
    {
        let c = s[i];
        if !('0' <= c && c <= '9') {
            assert(!is_digit(d[i - start]));
            return None;
        }
        let dv = ((c as u32) - ('0' as u32)) as u64;
        assert(d.take(i - start + 1).drop_last() =~= d.take(i - start));
        assert(d.take(i - start + 1).last() == c);
        let next = acc * 10 + dv;
        if next > 4294967295 {
            proof {
                lemma_digits_value_grows(d, i - start + 1);
            }
            return None;
        }
        acc = next;
        i = i + 1;
    }
    assert(d.take(to - start) =~= d);
    Some(acc as u32)
}

/// The length of the word at the start of `s`: the characters before the
/// first whitespace.
pub open spec fn word_len(s: Seq<char>) -> nat
    decreases s.len(),
{
    if s.len() == 0 || is_white_space(s[0]) {
        0
    } else {
        1 + word_len(s.drop_first())
    }
}

/// Trimming keeps a suffix that starts, if anywhere, at a non-blank.
pub proof fn lemma_trim_start_suffix(s: Seq<char>)
    ensures
        trim_start(s).len() <= s.len(),
        trim_start(s).len() > 0 ==> !is_white_space(trim_start(s)[0]),
    decreases s.len(),
{
    if s.len() > 0 && is_white_space(s[0]) {
        lemma_trim_start_suffix(s.drop_first());
    }
}

/// The first word fits in the text.
pub proof fn lemma_word_len_bound(s: Seq<char>)
    ensures
        word_len(s) <= s.len(),
    decreases s.len(),
{
    if s.len() > 0 && !is_white_space(s[0]) {
        lemma_word_len_bound(s.drop_first());
    }
}

/// The whitespace-separated words of `s`, as `str::split_whitespace`
/// yields them.
pub open spec fn words(s: Seq<char>) -> Seq<Seq<char>>
    decreases s.len(),
{
    let t = trim_start(s);
    if t.len() == 0 {
        Seq::empty()
    } else {
        proof {
            lemma_trim_start_suffix(s);
            lemma_word_len_bound(t);
        }
        let n = word_len(t);
        seq![t.take(n as int)] + words(t.skip(n as int))
    }
}

/// The first index at or after `i` that holds no whitespace.
fn skip_white(s: &Vec<char>, i: usize) -> (j: usize)
    requires
        i <= s.len(),
    ensures
        i <= j <= s.len(),
        j < s.len() ==> !is_white_space(s@[j as int]),
        trim_start(s@.subrange(i as int, s.len() as int)) == s@.subrange(j as int, s.len() as int),
{
    let mut j = i;
    while j < s.len() && is_white_space_char(s[j])
        invariant
            i <= j <= s.len(),
            trim_start(s@.subrange(i as int, s.len() as int)) == trim_start(s@.subrange(j as int, s.len() as int)),
        decreases s.len() - j,
    {
        assert(s@.subrange(j as int, s.len() as int).drop_first() =~= s@.subrange(j + 1, s.len() as int));
        j = j + 1;
    }
    j
}

/// The end of the word that starts at `j`.
fn word_end(s: &Vec<char>, j: usize) -> (k: usize)
    requires
        j <= s.len(),
    ensures
        j <= k <= s.len(),
        word_len(s@.subrange(j as int, s.len() as int)) == k - j,
{
    let mut k = j;
    while k < s.len() && !is_white_space_char(s[k])
        invariant
            j <= k <= s.len(),
            word_len(s@.subrange(j as int, s.len() as int)) == (k - j) + word_len(s@.subrange(k as int, s.len() as int)),
        decreases s.len() - k,
    {
        assert(s@.subrange(k as int, s.len() as int).drop_first() =~= s@.subrange(k + 1, s.len() as int));
        k = k + 1;
    }
    k
}

/// The words of `s[i..]`, one step: where the first word starts and ends.
fn next_word(s: &Vec<char>, i: usize) -> (r: Option<(usize, usize)>)
    requires
        i <= s.len(),
    ensures
        match r {
            Some((a, b)) => i <= a < b <= s.len() && words(s@.subrange(i as int, s.len() as int))
                == seq![s@.subrange(a as int, b as int)] + words(s@.subrange(b as int, s.len() as int)),
            None => words(s@.subrange(i as int, s.len() as int)) == Seq::<Seq<char>>::empty(),
        },
{
    let a = skip_white(s, i);
    if a == s.len() {
        return None;
    }
    let b = word_end(s, a);
    proof {
        assert(s@.subrange(a as int, s.len() as int)[0] == s@[a as int]);
        assert(word_len(s@.subrange(a as int, s.len() as int)) > 0);
        let t = s@.subrange(a as int, s.len() as int);
        assert(t.take(b - a) =~= s@.subrange(a as int, b as int));
        assert(t.skip(b - a) =~= s@.subrange(b as int, s.len() as int));
    }
    Some((a, b))
}

/// The first two words of `s`, where it has at least two.
pub fn first_two_words(s: &Vec<char>) -> (r: Option<(Vec<char>, Vec<char>)>)
    ensures
        match r {
            Some((w1, w2)) => words(s@).len() >= 2 && w1@ == words(s@)[0] && w2@ == words(s@)[1],
            None => words(s@).len() < 2,
        },
{
    assert(s@.subrange(0, s.len() as int) =~= s@);
    match next_word(s, 0) {
        Some((a, b)) => match next_word(s, b) {
            Some((c, d)) => {
                let w1 = slice_chars(s, a, b);
                let w2 = slice_chars(s, c, d);
                Some((w1, w2))
            },
            None => None,
        },
        None => None,
    }
}


/// A single word: not empty, and without whitespace.
pub open spec fn single_word(w: Seq<char>) -> bool {
    w.len() > 0 && forall|i: int| 0 <= i < w.len() ==> !is_white_space(#[trigger] w[i])
}

/// A word without whitespace runs through to what follows it.
proof fn lemma_word_len_prefix(d: Seq<char>, rest: Seq<char>)
    requires
        forall|i: int| 0 <= i < d.len() ==> !is_white_space(#[trigger] d[i]),
    ensures
        word_len(d + rest) == d.len() + word_len(rest),
    decreases d.len(),
{
    if d.len() > 0 {
        assert((d + rest)[0] == d[0]);
        assert((d + rest).drop_first() =~= d.drop_first() + rest);
        assert forall|i: int| 0 <= i < d.drop_first().len() implies !is_white_space(#[trigger] d.drop_first()[i]) by {
            assert(d.drop_first()[i] == d[i + 1]);
        }
        lemma_word_len_prefix(d.drop_first(), rest);
    } else {
        assert(d + rest =~= rest);
    }
}

/// The words of one word, a space and another word are those two words.
pub proof fn lemma_words_of_two(d: Seq<char>, t: Seq<char>)
    requires
        single_word(d),
        single_word(t),
    ensures
        words(d + seq![' '] + t) == seq![d, t],
{
    let s = d + seq![' '] + t;
    let u = seq![' '] + t;
    assert(s =~= d + u);
    assert(s[0] == d[0]);
    assert(trim_start(s) == s);
    assert(word_len(u) == 0);
    lemma_word_len_prefix(d, u);
    assert(s.take(d.len() as int) =~= d);
    assert(s.skip(d.len() as int) =~= u);
    assert(u.drop_first() =~= t);
    assert(trim_start(t) == t);
    assert(trim_start(u) == t);
    let e = Seq::<char>::empty();
    assert(t + e =~= t);
    lemma_word_len_prefix(t, e);
    assert(t.take(t.len() as int) =~= t);
    assert(t.skip(t.len() as int) =~= e);
    assert(trim_start(e) == e);
    assert(words(e) == Seq::<Seq<char>>::empty());
    assert(words(u) =~= seq![t]);
    assert(words(s) =~= seq![d, t]);
}

} // verus!
