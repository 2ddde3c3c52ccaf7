//! Text helpers: ASCII case folding, white space, substring search and the
//! lossy reading of bytes as UTF-8.
//!
//! The contracts speak of a string as the sequence of its characters.

use vstd::prelude::*;
use vstd::utf8::*;

verus! {

/// The characters with the Unicode property `White_Space`.
pub open spec fn is_white_space(c: char) -> bool {
    ||| 0x09 <= c as u32 <= 0x0d
    ||| c as u32 == 0x20
    ||| c as u32 == 0x85
    ||| c as u32 == 0xa0
    ||| c as u32 == 0x1680
    ||| 0x2000 <= c as u32 <= 0x200a
    ||| c as u32 == 0x2028
    ||| c as u32 == 0x2029
    ||| c as u32 == 0x202f
    ||| c as u32 == 0x205f
    ||| c as u32 == 0x3000
}

/// An ASCII capital as its small letter; every other character as itself.
pub open spec fn ascii_lower(c: char) -> char {
    if 'A' <= c <= 'Z' {
        (c as u32 + 32) as char
    } else {
        c
    }
}

/// A text with its ASCII capitals made small.
pub open spec fn lowered(s: Seq<char>) -> Seq<char> {
    s.map_values(|c: char| ascii_lower(c))
}

/// `needle` stands in `hay` from position `i` on.
pub open spec fn occurs_at(hay: Seq<char>, needle: Seq<char>, i: int) -> bool {
    &&& 0 <= i
    &&& i + needle.len() <= hay.len()
    &&& hay.subrange(i, i + needle.len()) == needle
}

/// `needle` is a substring of `hay`.
pub open spec fn occurs(hay: Seq<char>, needle: Seq<char>) -> bool {
    exists|i: int| occurs_at(hay, needle, i)
}

/// The number of characters before the first `c`; all where there is none.
pub open spec fn before_char(s: Seq<char>, c: char) -> nat
    decreases s.len(),
{
    if s.len() == 0 || s[0] == c {
        0
    } else {
        1 + before_char(s.skip(1), c)
    }
}

/// The text without its leading white space.
pub open spec fn trimmed_start(s: Seq<char>) -> Seq<char>
    decreases s.len(),
{
    if s.len() > 0 && is_white_space(s[0]) {
        trimmed_start(s.skip(1))
    } else {
        s
    }
}

/// The text without its trailing white space.
pub open spec fn trimmed_end(s: Seq<char>) -> Seq<char>
    decreases s.len(),
{
    if s.len() > 0 && is_white_space(s.last()) {
        trimmed_end(s.drop_last())
    } else {
        s
    }
}

/// The text without its leading and trailing white space.
pub open spec fn trimmed(s: Seq<char>) -> Seq<char> {
    trimmed_end(trimmed_start(s))
}

/// Whether `c` has the Unicode property `White_Space`.
pub fn white_space(c: char) -> (r: bool)
    ensures
        r == is_white_space(c),
{
    let n: u32 = c as u32;
    (0x09 <= n && n <= 0x0d) || n == 0x20 || n == 0x85 || n == 0xa0 || n == 0x1680 || (0x2000 <= n
        && n <= 0x200a) || n == 0x2028 || n == 0x2029 || n == 0x202f || n == 0x205f || n == 0x3000
}

/// `c` with an ASCII capital made small.
pub fn to_ascii_lower(c: char) -> (r: char)
    ensures
        r == ascii_lower(c),
{
    if 'A' <= c && c <= 'Z' {
        (c as u8 + 32) as char
    } else {
        c
    }
}

/// The characters of `s`.
pub fn chars_of(s: &str) -> (v: Vec<char>)
    ensures
        v@ == s@,
{
    let mut v: Vec<char> = Vec::new();
    for c in it: s.chars()
        invariant
            v@ == s@.take(it.index()),
            it.seq() == s@,
    {
        v.push(c);
    }
    v
}

/// The characters of `s`, its ASCII capitals made small.
pub fn lowered_chars_of(s: &str) -> (v: Vec<char>)
    ensures
        v@ == lowered(s@),
{
    let chars: Vec<char> = chars_of(s);
    let mut v: Vec<char> = Vec::new();
    for i in 0..chars.len()
        invariant
            chars@ == s@,
            v@ == lowered(s@).take(i as int),
    {
        v.push(to_ascii_lower(chars[i]));
    }
    v
}

/// Whether two texts are the same.
pub fn same(a: &str, b: &str) -> (r: bool)
    ensures
        r == (a@ == b@),
{
    let x: Vec<char> = chars_of(a);
    let y: Vec<char> = chars_of(b);
    same_chars(&x, &y)
}

/// Whether two sequences of characters are the same.
pub fn same_chars(a: &[char], b: &[char]) -> (r: bool)
    ensures
        r == (a@ == b@),
{
    assert(a@.subrange(0, a@.len() as int) =~= a@);
    a.len() == b.len() && found_at(a, b, 0)
}

/// Whether `needle` stands in `hay` from position `at` on.
pub fn found_at(hay: &[char], needle: &[char], at: usize) -> (r: bool)
    ensures
        r == occurs_at(hay@, needle@, at as int),
{
    if at > hay.len() || hay.len() - at < needle.len() {
        return false;
    }
    for k in 0..needle.len()
        invariant
            at + needle@.len() <= hay@.len(),
            hay@.len() <= usize::MAX,
            forall|j: int| 0 <= j < k ==> hay@[at + j] == #[trigger] needle@[j],
    {
        if hay[at + k] != needle[k] {
            assert(hay@.subrange(at as int, at + needle@.len())[k as int] == hay@[at + k]);
            return false;
        }
    }
    assert(hay@.subrange(at as int, at + needle@.len()) =~= needle@);
    true
}

/// The first position at or after `from` at which `needle` stands in `hay`.
pub fn find(hay: &[char], needle: &[char], from: usize) -> (r: Option<usize>)
    requires
        from <= hay@.len(),
    ensures
        match r {
            Some(i) => {
                &&& from <= i
                &&& occurs_at(hay@, needle@, i as int)
                &&& forall|j: int| from <= j < i ==> !occurs_at(hay@, needle@, j)
            },
            None => forall|j: int| from <= j ==> !occurs_at(hay@, needle@, j),
        },
{
    if hay.len() < needle.len() {
        return None;
    }
    let last: usize = hay.len() - needle.len();
    let mut i: usize = from;
    while i <= last
        invariant
            from <= i,
            last + needle@.len() == hay@.len(),
            i <= last + 1 || i == from,
            from <= hay@.len() <= usize::MAX,
            forall|j: int| from <= j < i ==> !occurs_at(hay@, needle@, j),
        decreases last + 1 - i,
    {
        if found_at(hay, needle, i) {
            return Some(i);
        }
        if i == last {
            return None;
        }
        i += 1;
    }
    None
}

/// The position of the first `c` in `v` from `from` on.
pub fn find_char(v: &[char], from: usize, c: char) -> (r: usize)
    requires
        from <= v@.len(),
    ensures
        from <= r <= v@.len(),
        r - from == before_char(v@.skip(from as int), c),
{
    let mut i: usize = from;
    while i < v.len() && v[i] != c
        invariant
            from <= i <= v@.len(),
            i - from + before_char(v@.skip(i as int), c) == before_char(v@.skip(from as int), c),
        decreases v@.len() - i,
    {
        assert(v@.skip(i as int).skip(1) =~= v@.skip(i + 1));
        i += 1;
    }
    i
}

/// Whether `needle` is a substring of `hay`.
pub fn contains(hay: &[char], needle: &[char]) -> (r: bool)
    ensures
        r == occurs(hay@, needle@),
{
    match find(hay, needle, 0) {
        Some(i) => true,
        None => {
            assert forall|j: int| !occurs_at(hay@, needle@, j) by {}
            false
        },
    }
}

/// The end of the white space that `v` holds from `from` on, at most `to`.
pub fn skip_white_space(v: &[char], from: usize, to: usize) -> (r: usize)
    requires
        from <= to <= v@.len(),
    ensures
        from <= r <= to,
        v@.subrange(r as int, to as int) == trimmed_start(v@.subrange(from as int, to as int)),
        r < to ==> !is_white_space(v@[r as int]),
{
    let mut i: usize = from;
    while i < to && white_space(v[i])
        invariant
            from <= i <= to <= v@.len(),
            trimmed_start(v@.subrange(i as int, to as int)) == trimmed_start(
                v@.subrange(from as int, to as int),
            ),
        decreases to - i,
    {
        assert(v@.subrange(i as int, to as int).skip(1) =~= v@.subrange(i + 1, to as int));
        i += 1;
    }
    i
}

/// The bounds of the text between `from` and `to` without the white space
/// around it.
pub fn trim_bounds(v: &[char], from: usize, to: usize) -> (r: (usize, usize))
    requires
        from <= to <= v@.len(),
    ensures
        from <= r.0 <= r.1 <= to,
        v@.subrange(r.0 as int, r.1 as int) == trimmed(v@.subrange(from as int, to as int)),
{
    let start: usize = skip_white_space(v, from, to);
    let mut end: usize = to;
    while end > start && white_space(v[end - 1])
        invariant
            from <= start <= end <= to <= v@.len(),
            trimmed_end(v@.subrange(start as int, end as int)) == trimmed_end(
                v@.subrange(start as int, to as int),
            ),
        decreases end,
    {
        assert(v@.subrange(start as int, end as int).drop_last() =~= v@.subrange(
            start as int,
            end - 1,
        ));
        end -= 1;
    }
    (start, end)
}

/// Whether `s` holds nothing but white space.
pub fn is_blank(s: &str) -> (r: bool)
    ensures
        r == (trimmed(s@).len() == 0),
{
    let v: Vec<char> = chars_of(s);
    let (start, end): (usize, usize) = trim_bounds(&v, 0, v.len());
    assert(v@.subrange(0, v@.len() as int) =~= s@);
    start == end
}

/// The text of `s` without the white space around it.
pub fn trim(s: &str) -> (r: String)
    ensures
        r@ == trimmed(s@),
{
    let v: Vec<char> = chars_of(s);
    let (start, end): (usize, usize) = trim_bounds(&v, 0, v.len());
    assert(v@.subrange(0, v@.len() as int) =~= s@);
    s.substring_char(start, end).to_owned()
}

/// What stands in place of bytes that are not UTF-8.
pub uninterp spec fn replaced_utf8(bytes: Seq<u8>) -> Seq<char>;

/// Bytes read as UTF-8, ill-formed parts replaced.
pub open spec fn lossy(bytes: Seq<u8>) -> Seq<char> {
    if valid_utf8(bytes) {
        decode_utf8(bytes)
    } else {
        replaced_utf8(bytes)
    }
}

/// Calls [`String::from_utf8_lossy`]. Of bytes that are UTF-8 it gives the
/// text that they encode. Of other bytes it gives a text that the bytes alone
/// determine and that holds a replacement character; which of them stand where is
/// not stated.
#[verifier::external_body]
pub(crate) fn from_utf8_lossy(bytes: &[u8]) -> (r: String)
    ensures
        valid_utf8(bytes@) ==> r@ == decode_utf8(bytes@),
        !valid_utf8(bytes@) ==> r@ == replaced_utf8(bytes@) && r@.contains('\u{fffd}'),
{
    String::from_utf8_lossy(bytes).into_owned()
}

/// The lowercase equivalent of a text, by Unicode.
pub uninterp spec fn lowercased(s: Seq<char>) -> Seq<char>;

/// The uppercase equivalent of a text, by Unicode.
pub uninterp spec fn uppercased(s: Seq<char>) -> Seq<char>;

/// An ASCII small letter as its capital; every other character as itself.
pub open spec fn ascii_upper(c: char) -> char {
    if 'a' <= c <= 'z' {
        (c as u32 - 32) as char
    } else {
        c
    }
}

/// Calls [`str::to_lowercase`]. It gives a text that `s` alone determines; of
/// ASCII text the one with its capitals made small.
#[verifier::external_body]
pub(crate) fn to_lowercase(s: &str) -> (r: String)
    ensures
        r@ == lowercased(s@),
        is_ascii_chars(s@) ==> r@ == lowered(s@),
{
    s.to_lowercase()
}

/// Calls [`str::to_uppercase`]. It gives a text that `s` alone determines; of
/// ASCII text the one with its small letters made capitals.
#[verifier::external_body]
pub(crate) fn to_uppercase(s: &str) -> (r: String)
    ensures
        r@ == uppercased(s@),
        is_ascii_chars(s@) ==> r@ == s@.map_values(|c: char| ascii_upper(c)),
{
    s.to_uppercase()
}

/// An ASCII character.
pub open spec fn is_ascii(c: char) -> bool {
    (c as u32) < 0x80
}

/// A character without regard to its case: of ASCII the small letter, of others
/// the lowercase of the uppercase of the lowercase. That way forms that share
/// their uppercase are one, such as the two small sigmas.
pub open spec fn caseless_char(c: char) -> Seq<char> {
    if is_ascii(c) {
        seq![ascii_lower(c)]
    } else {
        lowercased(uppercased(lowercased(seq![c])))
    }
}

/// A text without regard to case: that of its characters one by one, so that a
/// part of a text stays a part of it.
pub open spec fn caseless(s: Seq<char>) -> Seq<char>
    decreases s.len(),
{
    if s.len() == 0 {
        seq![]
    } else {
        caseless(s.drop_last()) + caseless_char(s.last())
    }
}

/// The characters of `s` without regard to case.
pub fn caseless_chars_of(s: &str) -> (v: Vec<char>)
    ensures
        v@ == caseless(s@),
{
    let chars: Vec<char> = chars_of(s);
    let mut v: Vec<char> = Vec::new();
    for i in 0..chars.len()
        invariant
            chars@ == s@,
            v@ == caseless(s@.take(i as int)),
    {
        let ghost done = v@;
        let c: char = chars[i];
        assert(s@.take(i + 1).drop_last() =~= s@.take(i as int));
        if (c as u32) < 0x80 {
            v.push(to_ascii_lower(c));
            assert(v@ =~= done + caseless_char(c));
        } else {
            let one: &str = s.substring_char(i, i + 1);
            assert(one@ =~= seq![c]);
            let upper: String = to_uppercase(to_lowercase(one).as_str());
            let mut folded: Vec<char> = chars_of(to_lowercase(upper.as_str()).as_str());
            v.append(&mut folded);
        }
    }
    assert(s@.take(s@.len() as int) =~= s@);
    v
}

/// The caseless form of two texts in a row is that of the first and that of the
/// second.
pub proof fn lemma_caseless_concat(a: Seq<char>, b: Seq<char>)
    ensures
        caseless(a + b) == caseless(a) + caseless(b),
    decreases b.len(),
{
    if b.len() == 0 {
        assert(a + b =~= a);
        assert(caseless(a) + caseless(b) =~= caseless(a));
    } else {
        lemma_caseless_concat(a, b.drop_last());
        assert((a + b).drop_last() =~= a + b.drop_last());
        assert(caseless(a + b) =~= caseless(a) + caseless(b));
    }
}

/// A substring stays one without regard to case.
pub proof fn lemma_occurs_caseless(hay: Seq<char>, needle: Seq<char>)
    requires
        occurs(hay, needle),
    ensures
        occurs(caseless(hay), caseless(needle)),
{
    let i = choose|i: int| occurs_at(hay, needle, i);
    let before = hay.take(i);
    let behind = hay.skip(i + needle.len());
    assert(hay =~= before + needle + behind);
    lemma_caseless_concat(before + needle, behind);
    lemma_caseless_concat(before, needle);
    let whole = caseless(needle);
    assert(whole.subrange(0, whole.len() as int) =~= whole);
    assert(occurs_at(whole, whole, 0));
    lemma_occurs_inside(caseless(before), whole, caseless(behind), whole);
}

proof fn lemma_caseless_char_lowered(c: char)
    ensures
        caseless_char(ascii_lower(c)) == caseless_char(c),
{
    if 'A' <= c <= 'Z' {
        assert(is_ascii(ascii_lower(c)));
    }
}

/// Making ASCII capitals small leaves the caseless form as it is.
pub proof fn lemma_caseless_lowered(s: Seq<char>)
    ensures
        caseless(lowered(s)) == caseless(s),
    decreases s.len(),
{
    if s.len() > 0 {
        lemma_caseless_lowered(s.drop_last());
        lemma_caseless_char_lowered(s.last());
        assert(lowered(s).drop_last() =~= lowered(s.drop_last()));
    }
}

/// The caseless form of ASCII text is the text with its capitals made small.
pub proof fn lemma_caseless_ascii(s: Seq<char>)
    requires
        is_ascii_chars(s),
    ensures
        caseless(s) == lowered(s),
    decreases s.len(),
{
    if s.len() == 0 {
        assert(lowered(s) =~= caseless(s));
    } else {
        let c = s[s.len() - 1];
        assert('\0' <= c <= '\u{7f}');
        assert forall|i: int| 0 <= i < s.drop_last().len() implies '\0' <= #[trigger] s.drop_last()[i]
            <= '\u{7f}' by {
            assert(s.drop_last()[i] == s[i]);
        }
        lemma_caseless_ascii(s.drop_last());
        lemma_ascii_range(c);
        assert(lowered(s) =~= lowered(s.drop_last()) + seq![ascii_lower(c)]);
    }
}

proof fn lemma_ascii_range(c: char)
    requires
        c <= '\u{7f}',
    ensures
        is_ascii(c),
{
}

/// Making capitals small is done after one pass.
pub proof fn lemma_lowered_twice(s: Seq<char>)
    ensures
        lowered(lowered(s)) == lowered(s),
{
    assert forall|i: int| 0 <= i < s.len() implies #[trigger] lowered(lowered(s))[i] == lowered(
        s,
    )[i] by {
        lemma_ascii_lower_twice(s[i]);
    }
    assert(lowered(lowered(s)) =~= lowered(s));
}

proof fn lemma_ascii_lower_twice(c: char)
    ensures
        ascii_lower(ascii_lower(c)) == ascii_lower(c),
{
}

/// Making small letters capitals first changes nothing once capitals are made
/// small.
pub proof fn lemma_lowered_after_upper(s: Seq<char>)
    ensures
        lowered(s.map_values(|c: char| ascii_upper(c))) == lowered(s),
{
    let upper = s.map_values(|c: char| ascii_upper(c));
    assert forall|i: int| 0 <= i < s.len() implies #[trigger] lowered(upper)[i] == lowered(s)[i] by {
        lemma_lower_after_upper(s[i]);
    }
    assert(lowered(upper) =~= lowered(s));
}

proof fn lemma_lower_after_upper(c: char)
    ensures
        ascii_lower(ascii_upper(c)) == ascii_lower(c),
{
}

/// A substring of a text is one of every text around it.
pub proof fn lemma_occurs_inside(
    before: Seq<char>,
    s: Seq<char>,
    behind: Seq<char>,
    needle: Seq<char>,
)
    requires
        occurs(s, needle),
    ensures
        occurs(before + s + behind, needle),
{
    let i = choose|i: int| occurs_at(s, needle, i);
    let j = before.len() + i;
    assert((before + s + behind).subrange(j, j + needle.len()) =~= s.subrange(
        i,
        i + needle.len(),
    ));
    assert(occurs_at(before + s + behind, needle, j));
}

/// A substring stays one when both texts have their capitals made small.
pub proof fn lemma_occurs_lowered(hay: Seq<char>, needle: Seq<char>)
    requires
        occurs(hay, needle),
    ensures
        occurs(lowered(hay), lowered(needle)),
{
    let i = choose|i: int| occurs_at(hay, needle, i);
    assert(lowered(hay).subrange(i, i + needle.len()) =~= lowered(
        hay.subrange(i, i + needle.len()),
    ));
    assert(occurs_at(lowered(hay), lowered(needle), i));
}

/// The first `c` stands behind a text without it.
pub proof fn lemma_before_char_skips(x: Seq<char>, c: char, rest: Seq<char>)
    requires
        !x.contains(c),
    ensures
        before_char(x + seq![c] + rest, c) == x.len(),
    decreases x.len(),
{
    let s = x + seq![c] + rest;
    if x.len() > 0 {
        assert(x.contains(x[0]));
        assert forall|k: char| x.skip(1).contains(k) implies x.contains(k) by {
            let i = choose|i: int| 0 <= i < x.skip(1).len() && x.skip(1)[i] == k;
            assert(x[i + 1] == k);
        }
        lemma_before_char_skips(x.skip(1), c, rest);
        assert(s.skip(1) =~= x.skip(1) + seq![c] + rest);
    }
}

/// A text occurs wherever it was put, whatever stands around it, and nowhere else:
/// where it occurs, the text is made of what stands before, of it and of what
/// stands behind, and each of its characters stands at its place.
pub proof fn law_occurs_where_it_was_put(
    before: Seq<char>,
    needle: Seq<char>,
    behind: Seq<char>,
    hay: Seq<char>,
    i: int,
)
    ensures
        occurs_at(before + needle + behind, needle, before.len() as int),
        occurs(before + needle + behind, needle),
        occurs_at(hay, needle, i) <==> 0 <= i && i + needle.len() <= hay.len() && forall|j: int|
            0 <= j < needle.len() ==> hay[i + j] == #[trigger] needle[j],
        occurs(hay, needle) <==> exists|a: Seq<char>, b: Seq<char>| #[trigger]
            (a + needle + b) == hay,
{
    let all = before + needle + behind;
    let n = before.len() as int;
    assert(all.subrange(n, n + needle.len()) =~= needle);
    assert(occurs_at(all, needle, n));
    if 0 <= i && i + needle.len() <= hay.len() {
        let part = hay.subrange(i, i + needle.len());
        if forall|j: int| 0 <= j < needle.len() ==> hay[i + j] == #[trigger] needle[j] {
            assert(part =~= needle);
        }
        if part == needle {
            assert forall|j: int| 0 <= j < needle.len() implies hay[i + j] == #[trigger] needle[j] by {
                assert(part[j] == hay[i + j]);
            }
        }
    }
    if occurs(hay, needle) {
        let k = choose|k: int| occurs_at(hay, needle, k);
        let (a, b) = (hay.take(k), hay.skip(k + needle.len()));
        assert(a + needle + b =~= hay);
    }
    if exists|a: Seq<char>, b: Seq<char>| #[trigger] (a + needle + b) == hay {
        let (a, b) = choose|a: Seq<char>, b: Seq<char>| #[trigger] (a + needle + b) == hay;
        let k = a.len() as int;
        assert(hay.subrange(k, k + needle.len()) =~= needle);
        assert(occurs_at(hay, needle, k));
    }
}

/// Making capitals small keeps the length and every character that is no ASCII
/// capital, and does each part of a text for itself.
pub proof fn law_lowered_character_by_character(a: Seq<char>, b: Seq<char>)
    ensures
        lowered(a).len() == a.len(),
        forall|i: int|
            0 <= i < a.len() ==> #[trigger] lowered(a)[i] == if 'A' <= a[i] <= 'Z' {
                (a[i] as u32 + 32) as char
            } else {
                a[i]
            },
        lowered(a + b) == lowered(a) + lowered(b),
{
    assert(lowered(a + b) =~= lowered(a) + lowered(b));
}

/// White space alone.
pub open spec fn all_white(w: Seq<char>) -> bool {
    forall|k: int| 0 <= k < w.len() ==> is_white_space(#[trigger] w[k])
}

proof fn lemma_trimmed_start_of(w: Seq<char>, s: Seq<char>)
    requires
        all_white(w),
        s.len() == 0 || !is_white_space(s[0]),
    ensures
        trimmed_start(w + s) == s,
    decreases w.len(),
{
    if w.len() == 0 {
        assert(w + s =~= s);
    } else {
        let rest = w.skip(1);
        assert forall|k: int| 0 <= k < rest.len() implies is_white_space(#[trigger] rest[k]) by {
            assert(rest[k] == w[k + 1]);
        }
        lemma_trimmed_start_of(rest, s);
        assert(is_white_space(w[0]));
        assert((w + s).skip(1) =~= rest + s);
    }
}

proof fn lemma_trimmed_end_of(s: Seq<char>, w: Seq<char>)
    requires
        all_white(w),
        s.len() == 0 || !is_white_space(s.last()),
    ensures
        trimmed_end(s + w) == s,
    decreases w.len(),
{
    if w.len() == 0 {
        assert(s + w =~= s);
    } else {
        let rest = w.drop_last();
        assert forall|k: int| 0 <= k < rest.len() implies is_white_space(#[trigger] rest[k]) by {
            assert(rest[k] == w[k]);
        }
        lemma_trimmed_end_of(s, rest);
        assert(is_white_space(w[w.len() - 1]));
        assert((s + w).drop_last() =~= s + rest);
    }
}

/// Trimming takes off the white space around a text, all of it and nothing else,
/// whatever the text.
pub proof fn law_trimming_takes_off_the_white_space_around(
    front: Seq<char>,
    s: Seq<char>,
    back: Seq<char>,
)
    requires
        all_white(front),
        all_white(back),
        s.len() > 0 ==> !is_white_space(s[0]) && !is_white_space(s.last()),
    ensures
        trimmed(front + s + back) == s,
        s.len() > 0 ==> trimmed_start(front + s + back) == s + back,
        s.len() > 0 ==> trimmed_end(front + s + back) == front + s,
{
    if s.len() == 0 {
        let all = front + s + back;
        assert forall|k: int| 0 <= k < all.len() implies is_white_space(#[trigger] all[k]) by {
            if k < front.len() {
                assert(all[k] == front[k]);
            } else {
                assert(all[k] == back[k - front.len()]);
            }
        }
        lemma_trimmed_start_of(all, seq![]);
        assert(all + seq![] =~= all);
        assert(trimmed(all) =~= s);
    } else {
        assert(front + s + back =~= front + (s + back));
        lemma_trimmed_start_of(front, s + back);
        lemma_trimmed_end_of(s, back);
        assert((front + s).last() == s.last());
        lemma_trimmed_end_of(front + s, back);
    }
}

/// The caseless form goes character by character, keeps an ASCII character as its
/// small letter, and does each part of a text for itself.
pub proof fn law_caseless_character_by_character(a: Seq<char>, b: Seq<char>, c: char)
    ensures
        caseless(a + b) == caseless(a) + caseless(b),
        (c as u32) < 0x80 ==> caseless(seq![c]) == lowered(seq![c]),
        (c as u32) >= 0x80 ==> caseless(seq![c]) == lowercased(uppercased(lowercased(seq![c]))),
        caseless(seq![]).len() == 0,
{
    lemma_caseless_concat(a, b);
    assert(seq![c].drop_last() =~= seq![]);
    assert(caseless(seq![]) =~= seq![]);
    assert(caseless(seq![c]) =~= caseless_char(c));
    if (c as u32) < 0x80 {
        assert(lowered(seq![c]) =~= seq![ascii_lower(c)]);
    }
}

/// Reading bytes gives back the text that they encode, whatever the text. Bytes
/// that encode none give what the replacement makes of all of them.
pub proof fn law_encoded_text_reads_back(s: Seq<char>, b: Seq<u8>)
    ensures
        lossy(encode_utf8(s)) == s,
        !valid_utf8(b) ==> lossy(b) == replaced_utf8(b),
{
    encode_utf8_valid_utf8(s);
    encode_utf8_decode_utf8(s);
}

proof fn lemma_trimmed_start_blank(s: Seq<char>)
    ensures
        trimmed_start(s).len() == 0 <==> all_white(s),
        trimmed_start(s).len() > 0 ==> !is_white_space(trimmed_start(s)[0]),
    decreases s.len(),
{
    if s.len() > 0 {
        let rest = s.skip(1);
        lemma_trimmed_start_blank(rest);
        if is_white_space(s[0]) && all_white(rest) {
            assert forall|k: int| 0 <= k < s.len() implies is_white_space(#[trigger] s[k]) by {
                if k > 0 {
                    assert(rest[k - 1] == s[k]);
                }
            }
        }
        if all_white(s) {
            assert forall|k: int| 0 <= k < rest.len() implies is_white_space(#[trigger] rest[k]) by {
                assert(rest[k] == s[k + 1]);
            }
            assert(is_white_space(s[0]));
        }
    }
}

proof fn lemma_trimmed_end_blank(s: Seq<char>)
    ensures
        trimmed_end(s).len() == 0 <==> all_white(s),
    decreases s.len(),
{
    if s.len() > 0 {
        let rest = s.drop_last();
        lemma_trimmed_end_blank(rest);
        if is_white_space(s.last()) && all_white(rest) {
            assert forall|k: int| 0 <= k < s.len() implies is_white_space(#[trigger] s[k]) by {
                if k < rest.len() {
                    assert(rest[k] == s[k]);
                }
            }
        }
        if all_white(s) {
            assert forall|k: int| 0 <= k < rest.len() implies is_white_space(#[trigger] rest[k]) by {
                assert(rest[k] == s[k]);
            }
            assert(is_white_space(s[s.len() - 1]));
        }
    }
}

/// Nothing is left of a text once it is trimmed exactly when it holds nothing but
/// white space: one other character anywhere is enough.
pub proof fn law_only_white_space_trims_to_nothing(s: Seq<char>)
    ensures
        trimmed(s).len() == 0 <==> all_white(s),
        trimmed_start(s).len() == 0 <==> all_white(s),
        forall|k: int| 0 <= k < s.len() && !is_white_space(#[trigger] s[k]) ==> trimmed(s).len() > 0,
{
    lemma_trimmed_start_blank(s);
    lemma_trimmed_end_blank(trimmed_start(s));
    if !all_white(s) {
        let t = trimmed_start(s);
        assert(!is_white_space(t[0]));
    } else {
        assert(all_white(trimmed_start(s)));
    }
}

/// A text is what trimming leaves of it, with white space around.
pub proof fn lemma_trimmed_parts(s: Seq<char>) -> (r: (Seq<char>, Seq<char>))
    ensures
        s == r.0 + trimmed(s) + r.1,
        all_white(r.0),
        all_white(r.1),
{
    let (front, t) = lemma_trimmed_start_parts(s);
    let back = lemma_trimmed_end_parts(t);
    assert(s =~= front + trimmed(s) + back);
    (front, back)
}

/// A text is its leading white space and what is left without it.
pub proof fn lemma_trimmed_start_parts(s: Seq<char>) -> (r: (Seq<char>, Seq<char>))
    ensures
        s == r.0 + r.1,
        r.1 == trimmed_start(s),
        all_white(r.0),
    decreases s.len(),
{
    if s.len() > 0 && is_white_space(s[0]) {
        let (front, t) = lemma_trimmed_start_parts(s.skip(1));
        let w = seq![s[0]] + front;
        assert forall|k: int| 0 <= k < w.len() implies is_white_space(#[trigger] w[k]) by {
            if k > 0 {
                assert(w[k] == front[k - 1]);
            }
        }
        assert(s =~= seq![s[0]] + s.skip(1));
        assert(s.skip(1) == front + t);
        assert(seq![s[0]] + (front + t) =~= w + t);
        (w, t)
    } else {
        assert(s =~= Seq::empty() + s);
        (seq![], s)
    }
}

proof fn lemma_trimmed_end_parts(s: Seq<char>) -> (back: Seq<char>)
    ensures
        s == trimmed_end(s) + back,
        all_white(back),
    decreases s.len(),
{
    if s.len() > 0 && is_white_space(s.last()) {
        let back = lemma_trimmed_end_parts(s.drop_last());
        let w = back.push(s.last());
        assert forall|k: int| 0 <= k < w.len() implies is_white_space(#[trigger] w[k]) by {
            if k < back.len() {
                assert(w[k] == back[k]);
            }
        }
        let t = trimmed_end(s.drop_last());
        assert(s =~= s.drop_last().push(s.last()));
        assert(s.drop_last() == t + back);
        assert((t + back).push(s.last()) =~= t + w);
        w
    } else {
        assert(s =~= s + Seq::empty());
        seq![]
    }
}

} // verus!
