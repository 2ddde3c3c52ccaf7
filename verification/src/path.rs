//! File references as filesystem paths.

use crate::event;
use crate::list;
use crate::text;
use vstd::prelude::*;
use vstd::utf8::*;

verus! {

/// The byte that begins an escape.
pub const PERCENT: u8 = 0x25;

/// The value of a hexadecimal digit.
pub open spec fn hex_value(b: u8) -> Option<u8> {
    if 0x30 <= b <= 0x39 {
        Some((b - 0x30) as u8)
    } else if 0x61 <= b <= 0x66 {
        Some((b - 0x61 + 10) as u8)
    } else if 0x41 <= b <= 0x46 {
        Some((b - 0x41 + 10) as u8)
    } else {
        None
    }
}

/// An escape, a percent sign and two hexadecimal digits, stands at position `i`.
pub open spec fn escape_at(b: Seq<u8>, i: int) -> bool {
    &&& 0 <= i
    &&& i + 2 < b.len()
    &&& b[i] == PERCENT
    &&& hex_value(b[i + 1]) is Some
    &&& hex_value(b[i + 2]) is Some
}

/// Bytes with each escape, from the left, replaced by the byte that it names.
/// Everything else is kept.
pub open spec fn percent_decoded(b: Seq<u8>) -> Seq<u8>
    decreases b.len(),
{
    if b.len() == 0 {
        seq![]
    } else if escape_at(b, 0) {
        seq![(hex_value(b[1])->0 * 16 + hex_value(b[2])->0) as u8] + percent_decoded(b.skip(3))
    } else {
        seq![b[0]] + percent_decoded(b.skip(1))
    }
}

/// A text percent-decoded: its UTF-8 bytes decoded and read as UTF-8 again.
pub open spec fn percent_text(s: Seq<char>) -> Seq<char> {
    text::lossy(percent_decoded(encode_utf8(s)))
}

/// The scheme of file URLs.
pub open spec fn file_scheme() -> Seq<char> {
    "file://"@
}

/// A file reference as a path: without a leading `file://`, percent-decoded.
pub open spec fn normalized(s: Seq<char>) -> Seq<char> {
    if text::occurs_at(s, file_scheme(), 0) {
        percent_text(s.skip(file_scheme().len() as int))
    } else {
        percent_text(s)
    }
}

/// A file reference holds more than white space.
pub open spec fn is_reference(s: Seq<char>) -> bool {
    text::trimmed(s).len() > 0
}

/// The paths of the file references that are not blank, at most `max` of them.
pub open spec fn kept_paths(files: Seq<Seq<char>>, max: nat) -> Seq<Seq<char>> {
    list::first_of(
        files.filter(|f: Seq<char>| is_reference(f)).map_values(|f: Seq<char>| normalized(f)),
        max,
    )
}

/// The value of a hexadecimal digit.
pub fn hex(b: u8) -> (r: Option<u8>)
    ensures
        r == hex_value(b),
{
    if 0x30 <= b && b <= 0x39 {
        Some(b - 0x30)
    } else if 0x61 <= b && b <= 0x66 {
        Some(b - 0x61 + 10)
    } else if 0x41 <= b && b <= 0x46 {
        Some(b - 0x41 + 10)
    } else {
        None
    }
}

/// `b` with its escapes decoded.
pub fn percent_decode_bytes(b: &[u8]) -> (out: Vec<u8>)
    ensures
        out@ == percent_decoded(b@),
{
    let mut out: Vec<u8> = Vec::with_capacity(b.len());
    let mut i: usize = 0;
    assert(b@.skip(0) =~= b@);
    while i < b.len()
        invariant
            i <= b@.len() <= usize::MAX,
            out@ + percent_decoded(b@.skip(i as int)) == percent_decoded(b@),
        decreases b@.len() - i,
    {
        let ghost rest = b@.skip(i as int);
        let ghost done = out@;
        if b[i] == PERCENT && b.len() - i > 2 {
            if let Some(h) = hex(b[i + 1]) {
                if let Some(l) = hex(b[i + 2]) {
                    assert(escape_at(rest, 0));
                    out.push(h * 16 + l);
                    assert(rest.skip(3) =~= b@.skip(i + 3));
                    assert(out@ + percent_decoded(b@.skip(i + 3)) =~= done + percent_decoded(rest));
                    i += 3;
                    continue ;
                }
            }
        }
        assert(!escape_at(rest, 0));
        out.push(b[i]);
        assert(rest.skip(1) =~= b@.skip(i + 1));
        assert(out@ + percent_decoded(b@.skip(i + 1)) =~= done + percent_decoded(rest));
        i += 1;
    }
    assert(b@.skip(i as int).len() == 0);
    assert(out@ + percent_decoded(b@.skip(i as int)) =~= out@);
    out
}

/// `s` percent-decoded. A percent sign that begins no escape is kept.
pub fn percent_decode(s: &str) -> (r: String)
    ensures
        r@ == percent_text(s@),
{
    let out: Vec<u8> = percent_decode_bytes(s.as_bytes());
    text::from_utf8_lossy(&out)
}

/// Strip a `file://` prefix (macOS and GNOME hand back URLs) and percent-decode.
pub fn normalize_file_path(raw: &str) -> (r: String)
    ensures
        r@ == normalized(raw@),
{
    let chars: Vec<char> = text::chars_of(raw);
    let scheme: Vec<char> = text::chars_of("file://");
    if text::found_at(&chars, &scheme, 0) {
        let rest: &str = raw.substring_char(scheme.len(), chars.len());
        assert(rest@ =~= raw@.skip(scheme@.len() as int));
        percent_decode(rest)
    } else {
        percent_decode(raw)
    }
}

/// The paths of the file references that are not blank, at most `max_files`.
pub fn keep_paths(files: &[String], max_files: usize) -> (r: Vec<String>)
    ensures
        event::texts(r@) == kept_paths(event::texts(files@), max_files as nat),
{
    let ghost all = event::texts(files@);
    let ghost keep = |f: Seq<char>| is_reference(f);
    let ghost norm = |f: Seq<char>| normalized(f);
    let mut out: Vec<String> = Vec::new();
    let mut i: usize = 0;
    assert(all.take(0).filter(keep) =~= Seq::empty()) by {
        reveal(Seq::filter);
    }
    assert(event::texts(out@) =~= all.take(0).filter(keep).map_values(norm));
    while i < files.len() && out.len() < max_files
        invariant
            all == event::texts(files@),
            keep == (|f: Seq<char>| is_reference(f)),
            norm == (|f: Seq<char>| normalized(f)),
            i <= files@.len(),
            out@.len() <= max_files,
            event::texts(out@) == all.take(i as int).filter(keep).map_values(norm),
        decreases files@.len() - i,
    {
        let ghost done = event::texts(out@);
        assert(all.take(i + 1).drop_last() =~= all.take(i as int));
        assert(all[i as int] == files@[i as int]@);
        proof {
            reveal(Seq::filter);
        }
        if !text::is_blank(files[i].as_str()) {
            let path: String = normalize_file_path(files[i].as_str());
            out.push(path);
            assert(event::texts(out@) =~= done.push(path@));
            assert(all.take(i + 1).filter(keep) =~= all.take(i as int).filter(keep).push(
                all[i as int],
            ));
            assert(all.take(i + 1).filter(keep).map_values(norm) =~= done.push(path@));
        }
        i += 1;
    }
    proof {
        assert(event::texts(out@).len() == out@.len());
        list::lemma_first_of_filtered(all, i as int, keep, norm, max_files as nat);
    }
    out
}

/// An escape stands in a text at position `i`.
pub open spec fn text_escape_at(s: Seq<char>, i: int) -> bool {
    &&& 0 <= i
    &&& i + 2 < s.len()
    &&& s[i] == '%'
    &&& is_hex_digit(s[i + 1])
    &&& is_hex_digit(s[i + 2])
}

/// A hexadecimal digit as a character.
pub open spec fn is_hex_digit(c: char) -> bool {
    (c as u32) < 0x80 && hex_value(c as u8) is Some
}

/// A character is a number of 32 bits.
proof fn lemma_char_as_u32(c: char)
    ensures
        c as u32 == c as int,
{
}

/// A byte below 0x80 at the front of encoded text is its first character.
proof fn lemma_ascii_front(s: Seq<char>)
    requires
        s.len() > 0,
    ensures
        encode_utf8(s).len() > 0,
        encode_utf8(s)[0] < 0x80 <==> (s[0] as u32) < 0x80,
        (s[0] as u32) < 0x80 ==> {
            &&& encode_utf8(s)[0] == s[0] as u8
            &&& encode_utf8(s)[0] == s[0] as u32
            &&& encode_utf8(s).skip(1) == encode_utf8(s.drop_first())
        },
        forall|i: int|
            0 <= i < encode_utf8(s).len() - encode_utf8(s.drop_first()).len() && (s[0] as u32)
                >= 0x80 ==> #[trigger] encode_utf8(s)[i] >= 0x80,
        encode_utf8(s).skip(
            encode_utf8(s).len() - encode_utf8(s.drop_first()).len(),
        ) == encode_utf8(s.drop_first()),
        encode_utf8(s).len() > encode_utf8(s.drop_first()).len(),
{
    let first: char = s[0];
    char_is_scalar(first);
    lemma_char_as_u32(first);
    let c = first as u32;
    let front = encode_scalar(c);
    let rest = encode_utf8(s.drop_first());
    assert(encode_utf8(s) == front + rest);
    assert(has_width_1_encoding(c) ==> leading_byte_width_1(c) == c as u8 && leading_byte_width_1(c)
        < 0x80) by (bit_vector);
    assert(has_width_2_encoding(c) ==> leading_byte_width_2(c) >= 0x80) by (bit_vector);
    assert(has_width_3_encoding(c) ==> leading_byte_width_3(c) >= 0x80) by (bit_vector);
    assert(has_width_4_encoding(c) ==> leading_byte_width_4(c) >= 0x80) by (bit_vector);
    assert(last_continuation_byte(c) >= 0x80) by (bit_vector);
    assert(second_last_continuation_byte(c) >= 0x80) by (bit_vector);
    assert(third_last_continuation_byte(c) >= 0x80) by (bit_vector);
    assert((front + rest).skip(front.len() as int) =~= rest);
    assert(c < 0x80 ==> (c as u8) as u32 == c && (c as u8) < 0x80) by (bit_vector);
    if c < 0x80 {
        assert(front =~= seq![c as u8]);
        assert(first as u8 == c as u8);
    } else if has_width_2_encoding(c) {
        assert(front =~= seq![leading_byte_width_2(c), last_continuation_byte(c)]);
    } else if has_width_3_encoding(c) {
        assert(front =~= seq![
            leading_byte_width_3(c),
            second_last_continuation_byte(c),
            last_continuation_byte(c),
        ]);
    } else {
        assert(has_width_4_encoding(c));
        assert(front =~= seq![
            leading_byte_width_4(c),
            third_last_continuation_byte(c),
            second_last_continuation_byte(c),
            last_continuation_byte(c),
        ]);
    }
}

/// An escape among the bytes of a text is one in the text.
proof fn lemma_escape_in_text(s: Seq<char>, i: int) -> (k: int)
    requires
        escape_at(encode_utf8(s), i),
    ensures
        text_escape_at(s, k),
    decreases s.len(),
{
    lemma_ascii_front(s);
    let b = encode_utf8(s);
    let rest = s.drop_first();
    let w = b.len() - encode_utf8(rest).len();
    if i < w {
        assert((s[0] as u32) < 0x80);
        assert(b.skip(1) == encode_utf8(rest));
        assert(i == 0);
        lemma_char_as_u32(s[0]);
        assert(s[0] == '%');
        assert(encode_utf8(rest)[0] == b[1]);
        assert(encode_utf8(rest).len() > 1);
        lemma_ascii_front(rest);
        let rest2 = rest.drop_first();
        assert(encode_utf8(rest).skip(1) == encode_utf8(rest2));
        assert(encode_utf8(rest2)[0] == b[2]);
        lemma_ascii_front(rest2);
        assert(rest[0] == s[1]);
        assert(rest2[0] == s[2]);
        0
    } else {
        assert(escape_at(encode_utf8(rest), i - w)) by {
            assert(b.skip(w)[i - w] == b[i]);
            assert(b.skip(w)[i - w + 1] == b[i + 1]);
            assert(b.skip(w)[i - w + 2] == b[i + 2]);
        }
        let k = lemma_escape_in_text(rest, i - w);
        assert(text_escape_at(s, k + 1));
        k + 1
    }
}

proof fn lemma_no_escape_unchanged(b: Seq<u8>)
    requires
        forall|i: int| !escape_at(b, i),
    ensures
        percent_decoded(b) == b,
    decreases b.len(),
{
    if b.len() > 0 {
        assert(!escape_at(b, 0));
        assert forall|i: int| !escape_at(b.skip(1), i) by {
            if escape_at(b.skip(1), i) {
                assert(escape_at(b, i + 1));
            }
        }
        lemma_no_escape_unchanged(b.skip(1));
        assert(seq![b[0]] + b.skip(1) =~= b);
    }
}

/// A text without an escape is left as it is, percent signs included.
pub proof fn law_text_without_escape_is_kept(s: Seq<char>)
    requires
        forall|i: int| !text_escape_at(s, i),
    ensures
        percent_text(s) == s,
{
    let b = encode_utf8(s);
    assert forall|i: int| !escape_at(b, i) by {
        if escape_at(b, i) {
            let k = lemma_escape_in_text(s, i);
            assert(!text_escape_at(s, k));
        }
    }
    lemma_no_escape_unchanged(b);
    encode_utf8_valid_utf8(s);
    encode_utf8_decode_utf8(s);
}

/// Bytes `e` are the bytes `b` with some of them, and every percent sign, written
/// as escapes, in capital or small digits.
pub open spec fn escapes_of(e: Seq<u8>, b: Seq<u8>) -> bool
    decreases b.len(),
{
    if b.len() == 0 {
        e.len() == 0
    } else {
        ||| e.len() >= 1 && e[0] == b[0] && b[0] != PERCENT && escapes_of(e.skip(1), b.skip(1))
        ||| e.len() >= 3 && e[0] == PERCENT && hex_value(e[1]) == Some((b[0] / 16) as u8)
            && hex_value(e[2]) == Some((b[0] % 16) as u8) && escapes_of(e.skip(3), b.skip(1))
    }
}

/// `t` is the text `s` with some of its UTF-8 bytes, and every percent sign,
/// written as escapes.
pub open spec fn is_escaped(t: Seq<char>, s: Seq<char>) -> bool {
    escapes_of(encode_utf8(t), encode_utf8(s))
}

proof fn lemma_escapes_decode(e: Seq<u8>, b: Seq<u8>)
    requires
        escapes_of(e, b),
    ensures
        percent_decoded(e) == b,
    decreases b.len(),
{
    if b.len() == 0 {
        assert(percent_decoded(e) =~= b);
    } else if e[0] == PERCENT {
        assert(escape_at(e, 0));
        lemma_escapes_decode(e.skip(3), b.skip(1));
        assert(seq![b[0]] + b.skip(1) =~= b);
    } else {
        lemma_escapes_decode(e.skip(1), b.skip(1));
        assert(seq![b[0]] + b.skip(1) =~= b);
    }
}

/// Decoding undoes escaping, whatever the text, whichever of its bytes are
/// escaped besides the percent signs, and whatever the case of the digits.
pub proof fn law_escaped_text_decodes(t: Seq<char>, s: Seq<char>)
    requires
        is_escaped(t, s),
    ensures
        percent_text(t) == s,
{
    lemma_escapes_decode(encode_utf8(t), encode_utf8(s));
    encode_utf8_valid_utf8(s);
    encode_utf8_decode_utf8(s);
}

/// A file URL is the path behind its scheme, decoded: of an escaped path the
/// path itself, and of a path without an escape that path.
pub proof fn law_file_url_is_its_path(t: Seq<char>, s: Seq<char>)
    ensures
        normalized(file_scheme() + t) == percent_text(t),
        is_escaped(t, s) ==> normalized(file_scheme() + t) == s,
        (forall|i: int| !text_escape_at(t, i)) ==> normalized(file_scheme() + t) == t,
{
    let scheme = file_scheme();
    let n = scheme.len() as int;
    assert((scheme + t).subrange(0, n) =~= scheme);
    assert((scheme + t).skip(n) =~= t);
    if is_escaped(t, s) {
        law_escaped_text_decodes(t, s);
    }
    if forall|i: int| !text_escape_at(t, i) {
        law_text_without_escape_is_kept(t);
    }
}

/// The hexadecimal digit of a number below sixteen.
pub open spec fn hex_digit(n: u8) -> char {
    if n < 10 {
        (0x30 + n) as char
    } else {
        (0x41 + n - 10) as char
    }
}

/// Bytes written as escapes, every one of them.
pub open spec fn all_escapes(b: Seq<u8>) -> Seq<char>
    decreases b.len(),
{
    if b.len() == 0 {
        seq![]
    } else {
        seq!['%', hex_digit(b[0] / 16), hex_digit(b[0] % 16)] + all_escapes(b.skip(1))
    }
}

/// A text written as escapes of its UTF-8 bytes, every one of them.
pub open spec fn fully_escaped(s: Seq<char>) -> Seq<char> {
    all_escapes(encode_utf8(s))
}

/// Escapes are ASCII and hold no white space.
pub proof fn lemma_all_escapes_are_plain(b: Seq<u8>)
    ensures
        is_ascii_chars(all_escapes(b)),
        forall|k: int|
            0 <= k < all_escapes(b).len() ==> !text::is_white_space(#[trigger] all_escapes(b)[k]),
    decreases b.len(),
{
    if b.len() > 0 {
        let rest = all_escapes(b.skip(1));
        let all = all_escapes(b);
        lemma_all_escapes_are_plain(b.skip(1));
        lemma_hex_digit_is_plain(b[0] / 16);
        lemma_hex_digit_is_plain(b[0] % 16);
        assert forall|k: int| 0 <= k < all.len() implies !text::is_white_space(
            #[trigger] all[k],
        ) by {
            if k >= 3 {
                assert(all[k] == rest[k - 3]);
            }
        }
    }
}

proof fn lemma_hex_digit_is_plain(n: u8)
    requires
        n < 16,
    ensures
        !text::is_white_space(hex_digit(n)),
{
}

proof fn lemma_all_escapes_escape(b: Seq<u8>)
    ensures
        escapes_of(encode_utf8(all_escapes(b)), b),
    decreases b.len(),
{
    let e = encode_utf8(all_escapes(b));
    lemma_all_escapes_are_plain(b);
    is_ascii_chars_encode_utf8(all_escapes(b));
    if b.len() > 0 {
        let rest = b.skip(1);
        lemma_all_escapes_are_plain(rest);
        is_ascii_chars_encode_utf8(all_escapes(rest));
        assert(e[0] == PERCENT) by {
            assert(all_escapes(b)[0] == '%');
        }
        assert(e[1] == hex_digit(b[0] / 16) as u8) by {
            assert(all_escapes(b)[1] == hex_digit(b[0] / 16));
        }
        assert(e[2] == hex_digit(b[0] % 16) as u8) by {
            assert(all_escapes(b)[2] == hex_digit(b[0] % 16));
        }
        assert(e.skip(3) =~= encode_utf8(all_escapes(rest))) by {
            assert forall|i: int| 0 <= i < all_escapes(rest).len() implies e.skip(3)[i]
                == encode_utf8(all_escapes(rest))[i] by {
                assert(all_escapes(b)[i + 3] == all_escapes(rest)[i]);
                assert(e[i + 3] == all_escapes(b)[i + 3] as u8);
            }
        }
        lemma_all_escapes_escape(rest);
    }
}

/// Every text can be escaped, without white space.
pub proof fn law_every_text_can_be_escaped(s: Seq<char>)
    ensures
        is_escaped(fully_escaped(s), s),
        forall|k: int|
            0 <= k < fully_escaped(s).len() ==> !text::is_white_space(
                #[trigger] fully_escaped(s)[k],
            ),
{
    lemma_all_escapes_escape(encode_utf8(s));
    lemma_all_escapes_are_plain(encode_utf8(s));
}

/// Text without a percent sign is escaped as it is.
pub proof fn law_text_without_percent_is_escaped(s: Seq<char>)
    requires
        !s.contains('%'),
    ensures
        is_escaped(s, s),
{
    let b = encode_utf8(s);
    assert(!b.contains(PERCENT)) by {
        if b.contains(PERCENT) {
            let i = choose|i: int| 0 <= i < b.len() && b[i] == PERCENT;
            lemma_percent_in_text(s, i);
        }
    }
    lemma_bytes_escape_themselves(b);
}

/// A percent sign among the bytes of a text is one in the text.
proof fn lemma_percent_in_text(s: Seq<char>, i: int)
    requires
        0 <= i < encode_utf8(s).len(),
        encode_utf8(s)[i] == PERCENT,
    ensures
        s.contains('%'),
    decreases s.len(),
{
    assert(s.len() > 0);
    lemma_ascii_front(s);
    let b = encode_utf8(s);
    let rest = s.drop_first();
    let w = b.len() - encode_utf8(rest).len();
    if i < w {
        assert((s[0] as u32) < 0x80);
        assert(b.skip(1) == encode_utf8(rest));
        assert(i == 0);
        lemma_char_as_u32(s[0]);
        assert(s[0] == '%');
    } else {
        assert(b.skip(w)[i - w] == b[i]);
        lemma_percent_in_text(rest, i - w);
        let k = choose|k: int| 0 <= k < rest.len() && rest[k] == '%';
        assert(s[k + 1] == '%');
    }
}

proof fn lemma_bytes_escape_themselves(b: Seq<u8>)
    requires
        !b.contains(PERCENT),
    ensures
        escapes_of(b, b),
    decreases b.len(),
{
    if b.len() > 0 {
        assert(b.contains(b[0]));
        assert forall|x: u8| b.skip(1).contains(x) implies b.contains(x) by {
            let i = choose|i: int| 0 <= i < b.skip(1).len() && b.skip(1)[i] == x;
            assert(b[i + 1] == x);
        }
        lemma_bytes_escape_themselves(b.skip(1));
    }
}

/// A plain path, without the scheme of file URLs and without an escape, is
/// left as it is.
pub proof fn law_plain_path_is_kept(s: Seq<char>)
    requires
        !text::occurs_at(s, file_scheme(), 0),
        forall|i: int| !text_escape_at(s, i),
    ensures
        normalized(s) == s,
{
    law_text_without_escape_is_kept(s);
}

/// `path` is the path of one of the file references that are not blank.
pub open spec fn is_path_of_one(files: Seq<Seq<char>>, path: Seq<char>) -> bool {
    exists|k: int|
        0 <= k < files.len() && is_reference(#[trigger] files[k]) && normalized(files[k]) == path
}

/// Of a list of file references at most `max` paths are kept, each the path of
/// one that is not blank; where no more than `max` are not blank, all are kept.
pub proof fn law_paths_are_capped(files: Seq<Seq<char>>, max: nat)
    ensures
        kept_paths(files, max).len() <= max,
        forall|i: int|
            0 <= i < kept_paths(files, max).len() ==> is_path_of_one(
                files,
                #[trigger] kept_paths(files, max)[i],
            ),
        files.filter(|f: Seq<char>| is_reference(f)).len() <= max ==> kept_paths(files, max).len()
            == files.filter(|f: Seq<char>| is_reference(f)).len(),
{
    let keep = |f: Seq<char>| is_reference(f);
    assert forall|i: int| 0 <= i < kept_paths(files, max).len() implies is_path_of_one(
        files,
        #[trigger] kept_paths(files, max)[i],
    ) by {
        let k = list::lemma_filtered_stands(files, keep, i);
        assert(is_reference(files[k]));
    }
}

/// A byte has a hexadecimal value exactly when it is one of the characters `0` to
/// `9`, `a` to `f` and `A` to `F`, and then the one that it counts for.
pub proof fn law_hexadecimal_digits(n: u8, b: u8)
    requires
        n < 16,
    ensures
        n < 10 ==> hex_value((0x30 + n) as u8) == Some(n),
        n >= 10 ==> hex_value((0x41 + n - 10) as u8) == Some(n),
        n >= 10 ==> hex_value((0x61 + n - 10) as u8) == Some(n),
        hex_value(b) is Some ==> hex_value(b)->0 < 16,
        hex_value(b) is Some <==> (0x30 <= b <= 0x39 || 0x41 <= b <= 0x46 || 0x61 <= b <= 0x66),
{
}

/// Decoding goes byte by byte from the left, whatever follows: an escape becomes
/// the byte that it names, and everything else stays, percent signs without two
/// digits behind them included.
pub proof fn law_percent_decoding_from_the_left(c: u8, x: u8, y: u8, rest: Seq<u8>)
    ensures
        percent_decoded(seq![]).len() == 0,
        c != 0x25 ==> percent_decoded(seq![c] + rest) == seq![c] + percent_decoded(rest),
        rest.len() < 2 || hex_value(rest[0]) is None || hex_value(rest[1]) is None
            ==> percent_decoded(seq![0x25] + rest) == seq![0x25] + percent_decoded(rest),
        hex_value(x) is Some && hex_value(y) is Some ==> percent_decoded(seq![0x25, x, y] + rest)
            == seq![(hex_value(x)->0 * 16 + hex_value(y)->0) as u8] + percent_decoded(rest),
{
    let one = seq![c] + rest;
    assert(one.skip(1) =~= rest);
    let percent = seq![0x25u8] + rest;
    assert(percent.skip(1) =~= rest);
    assert(rest.len() >= 2 ==> percent[1] == rest[0] && percent[2] == rest[1]);
    if hex_value(x) is Some && hex_value(y) is Some {
        let three = seq![0x25u8, x, y] + rest;
        assert(three.skip(3) =~= rest);
        assert(escape_at(three, 0));
    }
}

/// Two texts in a row decode to what they decode to one by one, as long as no
/// percent sign stands among the last two bytes of the first.
pub proof fn law_decoding_goes_part_by_part(a: Seq<u8>, b: Seq<u8>)
    requires
        forall|k: int| a.len() - 2 <= k < a.len() && 0 <= k ==> #[trigger] a[k] != 0x25,
    ensures
        percent_decoded(a + b) == percent_decoded(a) + percent_decoded(b),
    decreases a.len(),
{
    let all = a + b;
    if a.len() == 0 {
        assert(all =~= b);
        assert(percent_decoded(a) + percent_decoded(b) =~= percent_decoded(b));
    } else if escape_at(all, 0) {
        assert(all[0] == a[0]);
        assert(a.len() >= 3);
        assert(escape_at(a, 0));
        assert(all.skip(3) =~= a.skip(3) + b);
        assert forall|k: int| a.skip(3).len() - 2 <= k < a.skip(3).len() && 0 <= k implies #[trigger] a.skip(
            3,
        )[k] != 0x25 by {
            assert(a.skip(3)[k] == a[k + 3]);
        }
        law_decoding_goes_part_by_part(a.skip(3), b);
        assert(percent_decoded(all) =~= percent_decoded(a) + percent_decoded(b));
    } else {
        assert(!escape_at(a, 0));
        assert(all.skip(1) =~= a.skip(1) + b);
        assert forall|k: int| a.skip(1).len() - 2 <= k < a.skip(1).len() && 0 <= k implies #[trigger] a.skip(
            1,
        )[k] != 0x25 by {
            assert(a.skip(1)[k] == a[k + 1]);
        }
        law_decoding_goes_part_by_part(a.skip(1), b);
        assert(percent_decoded(all) =~= percent_decoded(a) + percent_decoded(b));
    }
}

/// A text whose bytes decode to those of another text is that text, and one whose
/// bytes decode to no text is what the replacement makes of all of them.
pub proof fn law_percent_text_is_what_its_bytes_decode_to(t: Seq<char>, s: Seq<char>)
    ensures
        percent_decoded(encode_utf8(t)) == encode_utf8(s) ==> percent_text(t) == s,
        !valid_utf8(percent_decoded(encode_utf8(t))) ==> percent_text(t) == text::replaced_utf8(
            percent_decoded(encode_utf8(t)),
        ),
{
    encode_utf8_valid_utf8(s);
    encode_utf8_decode_utf8(s);
}

/// The scheme of file URLs is taken off once and only at the front; a reference
/// that does not begin with it is decoded as it stands.
pub proof fn law_only_the_scheme_is_taken_off(t: Seq<char>, s: Seq<char>)
    ensures
        normalized("file://"@ + t) == percent_text(t),
        (forall|rest: Seq<char>| #[trigger] ("file://"@ + rest) != s) ==> normalized(s)
            == percent_text(s),
{
    let scheme = "file://"@;
    let n = scheme.len() as int;
    assert((scheme + t).subrange(0, n) =~= scheme);
    assert((scheme + t).skip(n) =~= t);
    if text::occurs_at(s, scheme, 0) {
        assert(scheme + s.skip(n) =~= s);
    }
}

/// A reference is one that is not blank: a single character that is no white
/// space is enough.
pub proof fn law_reference_is_not_blank(s: Seq<char>)
    ensures
        is_reference(s) <==> exists|k: int| 0 <= k < s.len() && !text::is_white_space(
            #[trigger] s[k],
        ),
{
    text::law_only_white_space_trims_to_nothing(s);
}

/// One more file reference adds its path behind the others, unless it is blank or
/// the list is full; no references give no paths.
pub proof fn law_each_reference_adds_its_path(files: Seq<Seq<char>>, file: Seq<char>, max: nat)
    ensures
        kept_paths(seq![], max).len() == 0,
        kept_paths(files.push(file), max) == if is_reference(file) && kept_paths(files, max).len()
            < max {
            kept_paths(files, max).push(normalized(file))
        } else {
            kept_paths(files, max)
        },
{
    reveal(Seq::filter);
    let keep = |f: Seq<char>| is_reference(f);
    let norm = |f: Seq<char>| normalized(f);
    assert(files.push(file).drop_last() =~= files);
    let before = files.filter(keep).map_values(norm);
    let all = files.push(file).filter(keep).map_values(norm);
    if is_reference(file) {
        assert(all =~= before.push(normalized(file)));
        if before.len() < max {
            assert(kept_paths(files, max) =~= before);
            assert(kept_paths(files.push(file), max) =~= all);
        } else {
            assert(all.take(max as int) =~= before.take(max as int));
            assert(before.take(before.len() as int) =~= before);
            assert(kept_paths(files.push(file), max) =~= kept_paths(files, max));
        }
    } else {
        assert(all =~= before);
    }
    assert(Seq::<Seq<char>>::empty().filter(keep) =~= Seq::empty());
}

} // verus!
