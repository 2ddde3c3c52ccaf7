//! Whether markup carries formatting worth keeping.

use crate::text;
use vstd::prelude::*;

verus! {

/// The names of the tags that make HTML rich: formatting and structure, not the
/// styled wrapper span that browsers add to plain selections.
pub open spec fn html_names() -> Seq<Seq<char>> {
    seq![
        "b"@,
        "strong"@,
        "i"@,
        "em"@,
        "u"@,
        "s"@,
        "strike"@,
        "del"@,
        "mark"@,
        "sub"@,
        "sup"@,
        "font"@,
        "h1"@,
        "h2"@,
        "h3"@,
        "h4"@,
        "h5"@,
        "h6"@,
        "ul"@,
        "ol"@,
        "li"@,
        "listing"@,
        "table"@,
        "thead"@,
        "tr"@,
        "td"@,
        "th"@,
        "blockquote"@,
        "pre"@,
        "code"@,
        "img"@,
        "hr"@,
    ]
}

/// White space of HTML: tab, line feed, form feed, carriage return and space.
pub open spec fn is_html_space(c: char) -> bool {
    c == '\t' || c == '\n' || c == '\u{c}' || c == '\r' || c == ' '
}

/// A character that ends the name of a tag.
pub open spec fn ends_name(c: char) -> bool {
    is_html_space(c) || c == '>' || c == '/'
}

/// A tag of this name begins at position `i`: behind the name stands a character
/// that ends it or, for a name of more than one letter, the end of the text. A
/// single letter there is as likely part of something else, as in `a <b`.
pub open spec fn tag_at(s: Seq<char>, name: Seq<char>, i: int) -> bool {
    let end = i + 1 + name.len();
    &&& text::occurs_at(s, "<"@ + name, i)
    &&& if end == s.len() {
        name.len() > 1
    } else {
        ends_name(s[end])
    }
}

/// A link begins at position `i`: an `a` tag that has room for an attribute.
pub open spec fn link_at(s: Seq<char>, i: int) -> bool {
    &&& text::occurs_at(s, "<a"@, i)
    &&& i + 2 < s.len()
    &&& is_html_space(s[i + 2])
}

/// One of the tags begins in `s`, all small letters.
pub open spec fn has_tag(s: Seq<char>) -> bool {
    exists|k: int, i: int| 0 <= k < html_names().len() && #[trigger] tag_at(s, html_names()[k], i)
}

/// A link begins in `s`, all small letters.
pub open spec fn has_link(s: Seq<char>) -> bool {
    exists|i: int| #[trigger] link_at(s, i)
}

/// HTML with a formatting or structure tag, in capitals or small letters.
pub open spec fn is_rich_html(s: Seq<char>) -> bool {
    has_tag(text::lowered(s)) || has_link(text::lowered(s))
}

/// The control words that make RTF rich with a space behind them, which leaves
/// out longer words and the "off" forms, such as `\ulnone` and `\b0`.
pub open spec fn spaced_words() -> Seq<Seq<char>> {
    seq![
        "\\b "@,
        "\\i "@,
        "\\ul "@,
        "\\sub "@,
        "\\super "@,
    ]
}

/// The toggles that make RTF rich unless they are switched off or only the
/// beginning of a longer word.
pub open spec fn toggle_words() -> Seq<Seq<char>> {
    seq![
        "\\strike"@,
        "\\striked"@,
        "\\highlight"@,
    ]
}

/// The control words without an "off" form that make RTF rich unless they are
/// only the beginning of a longer word.
pub open spec fn plain_words() -> Seq<Seq<char>> {
    seq![
        "\\pict"@,
        "\\bullet"@,
    ]
}

/// An ASCII letter.
pub open spec fn is_letter(c: char) -> bool {
    'a' <= c <= 'z' || 'A' <= c <= 'Z'
}

/// What stands from position `i` on switches a toggle off: the number 0, a `0`
/// without another digit behind it.
pub open spec fn off_at(s: Seq<char>, i: int) -> bool {
    &&& i < s.len()
    &&& s[i] == '0'
    &&& i + 1 == s.len() || !('0' <= s[i + 1] <= '9')
}

/// The control word stands at position `i`, not as the beginning of a longer
/// word, and where it is a toggle it is not switched off.
pub open spec fn word_at(s: Seq<char>, word: Seq<char>, toggle: bool, i: int) -> bool {
    let end = i + word.len();
    &&& text::occurs_at(s, word, i)
    &&& end == s.len() || !is_letter(s[end])
    &&& !(toggle && off_at(s, end))
}

/// One of the words that need a space stands in `s`.
pub open spec fn has_spaced_word(s: Seq<char>) -> bool {
    exists|k: int| 0 <= k < spaced_words().len() && text::occurs(s, #[trigger] spaced_words()[k])
}

/// One of `words` stands in `s`.
pub open spec fn has_word(s: Seq<char>, words: Seq<Seq<char>>, toggle: bool) -> bool {
    exists|k: int, i: int| 0 <= k < words.len() && #[trigger] word_at(s, words[k], toggle, i)
}

/// RTF with a character-formatting control word that is not switched off.
pub open spec fn is_rich_rtf(s: Seq<char>) -> bool {
    has_spaced_word(s) || has_word(s, toggle_words(), true) || has_word(s, plain_words(), false)
}

/// Whether a character is white space of HTML.
fn html_space(c: char) -> (r: bool)
    ensures
        r == is_html_space(c),
{
    c == '\t' || c == '\n' || c == '\u{c}' || c == '\r' || c == ' '
}

/// Whether a tag of this name begins in `s`.
fn contains_tag(s: &[char], name: &str) -> (r: bool)
    ensures
        r == exists|i: int| tag_at(s@, name@, i),
{
    let mark: Vec<char> = text::chars_of("<".to_owned().concat(name).as_str());
    let n: usize = mark.len();
    proof {
        reveal_strlit("<");
    }
    for i in 0..s.len()
        invariant
            mark@ == "<"@ + name@,
            n == mark@.len() == 1 + name@.len(),
            forall|j: int| 0 <= j < i ==> !tag_at(s@, name@, j),
    {
        if text::found_at(s, &mark, i) {
            let end: usize = i + n;
            let ends: bool = if end == s.len() {
                n > 2
            } else {
                s[end] == '>' || s[end] == '/' || html_space(s[end])
            };
            if ends {
                assert(tag_at(s@, name@, i as int));
                return true;
            }
        }
    }
    assert forall|j: int| !tag_at(s@, name@, j) by {}
    false
}

/// Whether a link begins in `s`.
fn contains_link(s: &[char]) -> (r: bool)
    ensures
        r == has_link(s@),
{
    let mark: Vec<char> = text::chars_of("<a");
    proof {
        reveal_strlit("<a");
    }
    for i in 0..s.len()
        invariant
            mark@ == "<a"@,
            mark@.len() == 2,
            forall|j: int| 0 <= j < i ==> !link_at(s@, j),
    {
        if s.len() - i > 2 && text::found_at(s, &mark, i) && html_space(s[i + 2]) {
            assert(link_at(s@, i as int));
            return true;
        }
    }
    assert forall|j: int| !link_at(s@, j) by {}
    false
}

/// Whether what stands from position `i` on switches a toggle off.
fn switches_off(s: &[char], i: usize) -> (r: bool)
    ensures
        r == off_at(s@, i as int),
{
    i < s.len() && s[i] == '0' && (i == s.len() - 1 || !('0' <= s[i + 1] && s[i + 1] <= '9'))
}

/// Whether the control word stands in `s`; a toggle, not switched off.
fn contains_word(s: &[char], word: &str, toggle: bool) -> (r: bool)
    requires
        word@.len() > 0,
    ensures
        r == exists|i: int| word_at(s@, word@, toggle, i),
{
    let mark: Vec<char> = text::chars_of(word);
    let n: usize = mark.len();
    for i in 0..s.len()
        invariant
            mark@ == word@,
            n == mark@.len(),
            word@.len() > 0,
            forall|j: int| 0 <= j < i ==> !word_at(s@, word@, toggle, j),
    {
        if text::found_at(s, &mark, i) {
            let end: usize = i + n;
            let whole: bool = end == s.len() || !(('a' <= s[end] && s[end] <= 'z') || ('A' <= s[end]
                && s[end] <= 'Z'));
            if whole && !(toggle && switches_off(s, end)) {
                assert(word_at(s@, word@, toggle, i as int));
                return true;
            }
        }
    }
    assert forall|j: int| !word_at(s@, word@, toggle, j) by {}
    false
}

/// Whether one of `words` stands in `s`; of toggles, one that is not switched off.
fn contains_any_word(s: &[char], words: &[&str], toggle: bool) -> (r: bool)
    requires
        forall|k: int| 0 <= k < words@.len() ==> (#[trigger] words@[k])@.len() > 0,
    ensures
        r == has_word(s@, words@.map_values(|m: &str| m@), toggle),
{
    let ghost all = words@.map_values(|m: &str| m@);
    for k in 0..words.len()
        invariant
            all == words@.map_values(|m: &str| m@),
            forall|j: int| 0 <= j < words@.len() ==> (#[trigger] words@[j])@.len() > 0,
            forall|j: int, i: int| 0 <= j < k ==> !(#[trigger] word_at(s@, all[j], toggle, i)),
    {
        assert(all[k as int] == words@[k as int]@);
        if contains_word(s, words[k], toggle) {
            let ghost i = choose|i: int| word_at(s@, all[k as int], toggle, i);
            assert(word_at(s@, all[k as int], toggle, i));
            return true;
        }
    }
    false
}

/// HTML is rich only with an actual formatting/structure tag (not just a styled
/// wrapper span browsers add to plain selections).
pub fn html_is_meaningfully_rich(html: &str) -> (r: bool)
    ensures
        r == is_rich_html(html@),
{
    let names: [&str; 32] = [
        "b",
        "strong",
        "i",
        "em",
        "u",
        "s",
        "strike",
        "del",
        "mark",
        "sub",
        "sup",
        "font",
        "h1",
        "h2",
        "h3",
        "h4",
        "h5",
        "h6",
        "ul",
        "ol",
        "li",
        "listing",
        "table",
        "thead",
        "tr",
        "td",
        "th",
        "blockquote",
        "pre",
        "code",
        "img",
        "hr",
    ];
    let lower: Vec<char> = text::lowered_chars_of(html);
    let ghost all = html_names();
    assert(names@.map_values(|m: &str| m@) =~= all);
    for k in 0..names.len()
        invariant
            all == html_names(),
            names@.map_values(|m: &str| m@) == all,
            lower@ == text::lowered(html@),
            forall|j: int, i: int| 0 <= j < k ==> !(#[trigger] tag_at(lower@, all[j], i)),
    {
        assert(all[k as int] == names@[k as int]@);
        if contains_tag(&lower, names[k]) {
            let ghost i = choose|i: int| tag_at(lower@, all[k as int], i);
            assert(tag_at(lower@, html_names()[k as int], i));
            return true;
        }
    }
    contains_link(&lower)
}

/// RTF is rich only with an explicit character-formatting toggle; the "off"
/// forms do not count.
pub fn rtf_is_meaningfully_rich(rtf: &str) -> (r: bool)
    ensures
        r == is_rich_rtf(rtf@),
{
    let spaced: [&str; 5] = [
        "\\b ",
        "\\i ",
        "\\ul ",
        "\\sub ",
        "\\super ",
    ];
    let toggles: [&str; 3] = [
        "\\strike",
        "\\striked",
        "\\highlight",
    ];
    let plain: [&str; 2] = [
        "\\pict",
        "\\bullet",
    ];
    let chars: Vec<char> = text::chars_of(rtf);
    let ghost all = spaced_words();
    assert(spaced@.map_values(|m: &str| m@) =~= all);
    assert(toggles@.map_values(|m: &str| m@) =~= toggle_words());
    assert(plain@.map_values(|m: &str| m@) =~= plain_words());
    proof {
        lemma_words_begin_with_backslash();
        assert forall|k: int| 0 <= k < toggles@.len() implies (#[trigger] toggles@[k])@.len() > 0 by {
            assert(toggle_words()[k] == toggles@[k]@);
        }
        assert forall|k: int| 0 <= k < plain@.len() implies (#[trigger] plain@[k])@.len() > 0 by {
            assert(plain_words()[k] == plain@[k]@);
        }
    }
    for k in 0..spaced.len()
        invariant
            all == spaced_words(),
            spaced@.map_values(|m: &str| m@) == all,
            chars@ == rtf@,
            forall|j: int| 0 <= j < k ==> !text::occurs(chars@, #[trigger] all[j]),
    {
        let word: Vec<char> = text::chars_of(spaced[k]);
        assert(all[k as int] == word@);
        if text::contains(&chars, &word) {
            assert(text::occurs(rtf@, spaced_words()[k as int]));
            return true;
        }
    }
    contains_any_word(&chars, toggles.as_slice(), true) || contains_any_word(
        &chars,
        plain.as_slice(),
        false,
    )
}

/// Every control word begins with a backslash.
proof fn lemma_words_begin_with_backslash()
    ensures
        forall|k: int|
            0 <= k < spaced_words().len() ==> (#[trigger] spaced_words()[k]).len() > 0
                && spaced_words()[k][0] == '\\',
        forall|k: int|
            0 <= k < toggle_words().len() ==> (#[trigger] toggle_words()[k]).len() > 0
                && toggle_words()[k][0] == '\\',
        forall|k: int|
            0 <= k < plain_words().len() ==> (#[trigger] plain_words()[k]).len() > 0
                && plain_words()[k][0] == '\\',
{
    reveal_strlit("\\b ");
    reveal_strlit("\\i ");
    reveal_strlit("\\ul ");
    reveal_strlit("\\sub ");
    reveal_strlit("\\super ");
    reveal_strlit("\\strike");
    reveal_strlit("\\striked");
    reveal_strlit("\\highlight");
    reveal_strlit("\\pict");
    reveal_strlit("\\bullet");
}

proof fn lemma_lowered_bracket(c: char)
    requires
        text::ascii_lower(c) == '<',
    ensures
        c == '<',
{
}

/// Where a mark stands in a text, its first character does.
proof fn lemma_first_stands(s: Seq<char>, mark: Seq<char>, i: int)
    requires
        text::occurs_at(s, mark, i),
        mark.len() > 0,
    ensures
        0 <= i < s.len(),
        s[i] == mark[0],
{
    assert(s.subrange(i, i + mark.len())[0] == s[i]);
}

/// Text in which no tag begins is never rich HTML, nor is text in which no
/// control word begins rich RTF.
pub proof fn law_plain_text_is_not_rich(s: Seq<char>)
    ensures
        !s.contains('<') ==> !is_rich_html(s),
        !s.contains('\\') ==> !is_rich_rtf(s),
{
    reveal_strlit("<");
    reveal_strlit("<a");
    lemma_words_begin_with_backslash();
    let lower = text::lowered(s);
    if is_rich_html(s) {
        let i = if has_tag(lower) {
            let (k, i) = choose|k: int, i: int|
                0 <= k < html_names().len() && #[trigger] tag_at(lower, html_names()[k], i);
            lemma_first_stands(lower, "<"@ + html_names()[k], i);
            i
        } else {
            let i = choose|i: int| #[trigger] link_at(lower, i);
            lemma_first_stands(lower, "<a"@, i);
            i
        };
        assert(text::ascii_lower(s[i]) == '<');
        lemma_lowered_bracket(s[i]);
        assert(s[i] == '<');
    }
    if has_spaced_word(s) {
        let k = choose|k: int|
            0 <= k < spaced_words().len() && text::occurs(s, #[trigger] spaced_words()[k]);
        let i = choose|i: int| text::occurs_at(s, spaced_words()[k], i);
        lemma_first_stands(s, spaced_words()[k], i);
    } else if has_word(s, toggle_words(), true) {
        let (k, i) = choose|k: int, i: int|
            0 <= k < toggle_words().len() && #[trigger] word_at(s, toggle_words()[k], true, i);
        lemma_first_stands(s, toggle_words()[k], i);
    } else if has_word(s, plain_words(), false) {
        let (k, i) = choose|k: int, i: int|
            0 <= k < plain_words().len() && #[trigger] word_at(s, plain_words()[k], false, i);
        lemma_first_stands(s, plain_words()[k], i);
    }
}

/// Whether HTML is rich does not depend on the case of its ASCII letters.
pub proof fn law_rich_html_ignores_case(s: Seq<char>)
    ensures
        is_rich_html(text::lowered(s)) == is_rich_html(s),
        is_rich_html(s.map_values(|c: char| text::ascii_upper(c))) == is_rich_html(s),
{
    text::lemma_lowered_twice(s);
    text::lemma_lowered_after_upper(s);
}

/// A tag is one by its whole name: a longer name that only begins like `name`
/// is another tag, whatever stands around it.
pub proof fn law_longer_name_is_another_tag(
    before: Seq<char>,
    name: Seq<char>,
    c: char,
    behind: Seq<char>,
)
    requires
        !ends_name(c),
    ensures
        !tag_at(before + "<"@ + name + seq![c] + behind, name, before.len() as int),
{
    reveal_strlit("<");
    let s = before + "<"@ + name + seq![c] + behind;
    assert(s[(before.len() + 1 + name.len()) as int] == c);
}

/// A control word that is only the beginning of a longer word does not count, nor
/// does a toggle that is switched off, whatever stands around it.
pub proof fn law_word_that_is_off_does_not_count(
    before: Seq<char>,
    word: Seq<char>,
    behind: Seq<char>,
)
    ensures
        behind.len() > 0 && is_letter(behind[0]) ==> forall|toggle: bool|
            !(#[trigger] word_at(before + word + behind, word, toggle, before.len() as int)),
        off_at(behind, 0) ==> !word_at(before + word + behind, word, true, before.len() as int),
{
    let s = before + word + behind;
    let end = (before.len() + word.len()) as int;
    assert(behind.len() > 0 ==> s[end] == behind[0]);
    assert(behind.len() > 1 ==> s[end + 1] == behind[1]);
}

/// What stands in a text stands in every text around it, with the same behind it.
proof fn lemma_stands_inside(
    before: Seq<char>,
    s: Seq<char>,
    behind: Seq<char>,
    mark: Seq<char>,
    i: int,
)
    requires
        text::occurs_at(s, mark, i),
    ensures
        text::occurs_at(before + s + behind, mark, before.len() + i),
        i + mark.len() < s.len() ==> (before + s + behind)[before.len() + i + mark.len()] == s[i
            + mark.len()],
        i + mark.len() == s.len() && behind.len() > 0 ==> (before + s + behind)[before.len() + i
            + mark.len()] == behind[0],
{
    let all = before + s + behind;
    let j = before.len() + i;
    assert(all.subrange(j, j + mark.len()) =~= s.subrange(i, i + mark.len()));
}

/// A tag that the text around `s` cannot undo: it ends before the end of `s`, or
/// what follows `s` ends its name too.
pub open spec fn tag_holds(s: Seq<char>, behind: Seq<char>, name: Seq<char>, i: int) -> bool {
    &&& tag_at(s, name, i)
    &&& i + 1 + name.len() < s.len() || behind.len() == 0 || ends_name(behind[0])
}

/// A control word that the text around `s` cannot undo: it ends before the end of
/// `s`, or what follows `s` neither goes on with it nor switches it off.
pub open spec fn word_holds(
    s: Seq<char>,
    behind: Seq<char>,
    word: Seq<char>,
    toggle: bool,
    i: int,
) -> bool {
    &&& word_at(s, word, toggle, i)
    &&& i + word.len() < s.len() || behind.len() == 0 || !(is_letter(behind[0]) || toggle && off_at(
        behind,
        0,
    ))
}

/// A tag or a control word stays one inside other text, unless it stands at the
/// very end and what follows goes on with its name or switches it off.
pub proof fn law_tags_and_words_stay_inside_text(
    before: Seq<char>,
    s: Seq<char>,
    behind: Seq<char>,
)
    ensures
        forall|name: Seq<char>, i: int| #[trigger]
            tag_holds(s, behind, name, i) ==> tag_at(
                before + s + behind,
                name,
                before.len() + i,
            ),
        forall|i: int| #[trigger] link_at(s, i) ==> link_at(before + s + behind, before.len() + i),
        forall|word: Seq<char>, toggle: bool, i: int| #[trigger]
            word_holds(s, behind, word, toggle, i) ==> word_at(
                before + s + behind,
                word,
                toggle,
                before.len() + i,
            ),
{
    reveal_strlit("<");
    reveal_strlit("<a");
    let all = before + s + behind;
    assert forall|name: Seq<char>, i: int| #[trigger] tag_holds(s, behind, name, i) implies tag_at(
        all,
        name,
        before.len() + i,
    ) by {
        lemma_stands_inside(before, s, behind, "<"@ + name, i);
    }
    assert forall|i: int| #[trigger] link_at(s, i) implies link_at(all, before.len() + i) by {
        lemma_stands_inside(before, s, behind, "<a"@, i);
    }
    assert forall|word: Seq<char>, toggle: bool, i: int| #[trigger]
        word_holds(s, behind, word, toggle, i) implies word_at(
        all,
        word,
        toggle,
        before.len() + i,
    ) by {
        lemma_stands_inside(before, s, behind, word, i);
        let end = i + word.len();
        let at = before.len() + end;
        if end + 1 < s.len() {
            assert(all[at + 1] == s[end + 1]);
        } else if end == s.len() && behind.len() > 1 {
            assert(all[at + 1] == behind[1]);
        }
    }
}

/// Rich HTML stays rich inside other text: always where it has a link or a tag
/// that ends before its end, and where its only tag stands unfinished at its end,
/// unless what follows goes on with the name.
pub proof fn law_rich_html_inside_text_is_rich(before: Seq<char>, s: Seq<char>, behind: Seq<char>)
    ensures
        (exists|k: int, i: int|
            0 <= k < html_names().len() && #[trigger] tag_at(text::lowered(s), html_names()[k], i)
                && i + 1 + html_names()[k].len() < s.len()) ==> is_rich_html(before + s + behind),
        has_link(text::lowered(s)) ==> is_rich_html(before + s + behind),
        is_rich_html(s) && (behind.len() == 0 || ends_name(behind[0])) ==> is_rich_html(
            before + s + behind,
        ),
{
    let lower = text::lowered(s);
    let (front, back) = (text::lowered(before), text::lowered(behind));
    let all = front + lower + back;
    assert(text::lowered(before + s + behind) =~= all);
    if behind.len() > 0 && ends_name(behind[0]) {
        lemma_lowered_end(behind[0]);
    }
    law_tags_and_words_stay_inside_text(front, lower, back);
    assert forall|k: int, i: int|
        0 <= k < html_names().len() && #[trigger] tag_at(lower, html_names()[k], i) && (i + 1
            + html_names()[k].len() < s.len() || behind.len() == 0 || ends_name(
            behind[0],
        )) implies has_tag(all) by {
        assert(tag_holds(lower, back, html_names()[k], i));
        assert(tag_at(all, html_names()[k], front.len() + i));
    }
    if has_link(lower) {
        let i = choose|i: int| #[trigger] link_at(lower, i);
        assert(link_at(all, front.len() + i));
    }
}

/// Rich RTF stays rich inside other text: always where one of its words needs a
/// space or ends before its end, and otherwise unless what follows goes on with
/// the word or switches it off.
pub proof fn law_rich_rtf_inside_text_is_rich(before: Seq<char>, s: Seq<char>, behind: Seq<char>)
    ensures
        has_spaced_word(s) ==> is_rich_rtf(before + s + behind),
        forall|k: int, i: int|
            0 <= k < toggle_words().len() && #[trigger] word_holds(
                s,
                behind,
                toggle_words()[k],
                true,
                i,
            ) ==> is_rich_rtf(before + s + behind),
        forall|k: int, i: int|
            0 <= k < plain_words().len() && #[trigger] word_holds(
                s,
                behind,
                plain_words()[k],
                false,
                i,
            ) ==> is_rich_rtf(before + s + behind),
        is_rich_rtf(s) && (behind.len() == 0 || !(is_letter(behind[0]) || off_at(behind, 0)))
            ==> is_rich_rtf(before + s + behind),
{
    let all = before + s + behind;
    law_tags_and_words_stay_inside_text(before, s, behind);
    if has_spaced_word(s) {
        let k = choose|k: int|
            0 <= k < spaced_words().len() && text::occurs(s, #[trigger] spaced_words()[k]);
        text::lemma_occurs_inside(before, s, behind, spaced_words()[k]);
    }
    assert forall|k: int, i: int|
        0 <= k < toggle_words().len() && #[trigger] word_holds(
            s,
            behind,
            toggle_words()[k],
            true,
            i,
        ) implies is_rich_rtf(all) by {
        assert(word_at(all, toggle_words()[k], true, before.len() + i));
    }
    assert forall|k: int, i: int|
        0 <= k < plain_words().len() && #[trigger] word_holds(
            s,
            behind,
            plain_words()[k],
            false,
            i,
        ) implies is_rich_rtf(all) by {
        assert(word_at(all, plain_words()[k], false, before.len() + i));
    }
    if is_rich_rtf(s) && (behind.len() == 0 || !(is_letter(behind[0]) || off_at(behind, 0))) {
        if has_word(s, toggle_words(), true) {
            let (k, i) = choose|k: int, i: int|
                0 <= k < toggle_words().len() && #[trigger] word_at(s, toggle_words()[k], true, i);
            assert(word_holds(s, behind, toggle_words()[k], true, i));
        } else if has_word(s, plain_words(), false) {
            let (k, i) = choose|k: int, i: int|
                0 <= k < plain_words().len() && #[trigger] word_at(s, plain_words()[k], false, i);
            assert(word_holds(s, behind, plain_words()[k], false, i));
        }
    }
}

/// Making letters small leaves a character that ends a name as it is.
proof fn lemma_lowered_end(c: char)
    requires
        ends_name(c),
    ensures
        ends_name(text::ascii_lower(c)),
{
}

/// A tag for formatting or structure, by its name in small letters.
pub open spec fn is_formatting_tag(name: Seq<char>) -> bool {
    ||| name == "b"@
    ||| name == "strong"@
    ||| name == "i"@
    ||| name == "em"@
    ||| name == "u"@
    ||| name == "s"@
    ||| name == "strike"@
    ||| name == "del"@
    ||| name == "mark"@
    ||| name == "sub"@
    ||| name == "sup"@
    ||| name == "font"@
    ||| name == "h1"@
    ||| name == "h2"@
    ||| name == "h3"@
    ||| name == "h4"@
    ||| name == "h5"@
    ||| name == "h6"@
    ||| name == "ul"@
    ||| name == "ol"@
    ||| name == "li"@
    ||| name == "listing"@
    ||| name == "table"@
    ||| name == "thead"@
    ||| name == "tr"@
    ||| name == "td"@
    ||| name == "th"@
    ||| name == "blockquote"@
    ||| name == "pre"@
    ||| name == "code"@
    ||| name == "img"@
    ||| name == "hr"@
}

proof fn lemma_formatting_tags_are_listed(name: Seq<char>)
    ensures
        is_formatting_tag(name) <==> html_names().contains(name),
{
    if is_formatting_tag(name) {
        assert(html_names()[0] == "b"@);
        assert(html_names()[1] == "strong"@);
        assert(html_names()[2] == "i"@);
        assert(html_names()[3] == "em"@);
        assert(html_names()[4] == "u"@);
        assert(html_names()[5] == "s"@);
        assert(html_names()[6] == "strike"@);
        assert(html_names()[7] == "del"@);
        assert(html_names()[8] == "mark"@);
        assert(html_names()[9] == "sub"@);
        assert(html_names()[10] == "sup"@);
        assert(html_names()[11] == "font"@);
        assert(html_names()[12] == "h1"@);
        assert(html_names()[13] == "h2"@);
        assert(html_names()[14] == "h3"@);
        assert(html_names()[15] == "h4"@);
        assert(html_names()[16] == "h5"@);
        assert(html_names()[17] == "h6"@);
        assert(html_names()[18] == "ul"@);
        assert(html_names()[19] == "ol"@);
        assert(html_names()[20] == "li"@);
        assert(html_names()[21] == "listing"@);
        assert(html_names()[22] == "table"@);
        assert(html_names()[23] == "thead"@);
        assert(html_names()[24] == "tr"@);
        assert(html_names()[25] == "td"@);
        assert(html_names()[26] == "th"@);
        assert(html_names()[27] == "blockquote"@);
        assert(html_names()[28] == "pre"@);
        assert(html_names()[29] == "code"@);
        assert(html_names()[30] == "img"@);
        assert(html_names()[31] == "hr"@);
        assert(html_names().contains(name));
    }
}

/// Every formatting or structure tag makes a text rich, in capitals or small
/// letters, with whatever before it and whatever behind it, as soon as its name
/// ends: at a tab, a line feed, a form feed, a carriage return, a space, a `>` or a
/// `/`, or for a name of more than one letter at the end of the text.
pub proof fn law_every_formatting_tag_makes_rich(
    before: Seq<char>,
    tag: Seq<char>,
    c: char,
    behind: Seq<char>,
)
    requires
        is_formatting_tag(text::lowered(tag)),
    ensures
        c == '\t' || c == '\n' || c == '\u{c}' || c == '\r' || c == ' ' || c == '>' || c == '/'
            ==> is_rich_html(before + seq!['<'] + tag + seq![c] + behind),
        tag.len() > 1 ==> is_rich_html(before + seq!['<'] + tag),
{
    reveal_strlit("<");
    let name = text::lowered(tag);
    lemma_formatting_tags_are_listed(name);
    let k = choose|k: int| 0 <= k < html_names().len() && html_names()[k] == name;
    let i = before.len() as int;
    let n = name.len() as int;
    if c == '\t' || c == '\n' || c == '\u{c}' || c == '\r' || c == ' ' || c == '>' || c == '/' {
        let s = before + seq!['<'] + tag + seq![c] + behind;
        let lower = text::lowered(s);
        assert(lower.subrange(i, i + 1 + n) =~= "<"@ + name);
        assert(s[i + 1 + n] == c);
        assert(lower[i + 1 + n] == c);
        assert(tag_at(lower, html_names()[k], i));
    }
    if tag.len() > 1 {
        let s = before + seq!['<'] + tag;
        let lower = text::lowered(s);
        assert(lower.subrange(i, i + 1 + n) =~= "<"@ + name);
        assert(tag_at(lower, html_names()[k], i));
    }
}

/// Every text in which `<a` or `<A` stands at some position with a tab, a line
/// feed, a form feed, a carriage return or a space behind it is rich HTML,
/// whatever stands before and behind.
pub proof fn law_every_link_makes_rich(s: Seq<char>, i: int)
    requires
        0 <= i,
        i + 2 < s.len(),
        s[i] == '<',
        s[i + 1] == 'a' || s[i + 1] == 'A',
        s[i + 2] == '\t' || s[i + 2] == '\n' || s[i + 2] == '\u{c}' || s[i + 2] == '\r' || s[i + 2]
            == ' ',
    ensures
        is_rich_html(s),
{
    reveal_strlit("<a");
    let lower = text::lowered(s);
    assert(lower[i] == '<' && lower[i + 1] == 'a' && lower[i + 2] == s[i + 2]);
    assert(lower.subrange(i, i + 2) =~= "<a"@);
    assert(link_at(lower, i));
}

/// From position `i` on stands what makes HTML rich: an angle bracket, then a
/// formatting or structure tag of `n` letters that ends there, or an `a` with
/// white space behind it.
pub open spec fn formats_at(s: Seq<char>, i: int, n: int) -> bool {
    &&& 0 <= i
    &&& 0 <= n
    &&& i + 1 + n <= s.len()
    &&& s[i] == '<'
    &&& {
        let name = text::lowered(s.subrange(i + 1, i + 1 + n));
        let c = s[i + 1 + n];
        let space = c == '\t' || c == '\n' || c == '\u{c}' || c == '\r' || c == ' ';
        ||| is_formatting_tag(name) && i + 1 + n < s.len() && (space || c == '>' || c == '/')
        ||| is_formatting_tag(name) && i + 1 + n == s.len() && n > 1
        ||| name == seq!['a'] && i + 1 + n < s.len() && space
    }
}

/// HTML is rich only where a formatting or structure tag or a link stands in it.
pub proof fn law_rich_html_has_a_tag(s: Seq<char>)
    requires
        is_rich_html(s),
    ensures
        exists|i: int, n: int| formats_at(s, i, n),
{
    reveal_strlit("<");
    reveal_strlit("<a");
    let lower = text::lowered(s);
    if has_tag(lower) {
        let (k, i) = choose|k: int, i: int|
            0 <= k < html_names().len() && #[trigger] tag_at(lower, html_names()[k], i);
        let name = html_names()[k];
        let n = name.len() as int;
        lemma_formatting_tags_are_listed(name);
        assert(html_names().contains(name));
        let mark = "<"@ + name;
        lemma_first_stands(lower, mark, i);
        assert(mark[0] == '<');
        lemma_lowered_bracket(s[i]);
        assert(text::lowered(s.subrange(i + 1, i + 1 + n)) =~= name) by {
            assert forall|j: int| 0 <= j < n implies text::lowered(s.subrange(i + 1, i + 1 + n))[j]
                == name[j] by {
                assert(lower.subrange(i, i + 1 + n)[j + 1] == mark[j + 1]);
            }
        }
        if i + 1 + n < s.len() {
            lemma_end_lowered(s[i + 1 + n]);
        }
        assert(formats_at(s, i, n));
    } else {
        let i = choose|i: int| #[trigger] link_at(lower, i);
        lemma_first_stands(lower, "<a"@, i);
        lemma_lowered_bracket(s[i]);
        assert(lower.subrange(i, i + 2)[1] == lower[i + 1]);
        assert(text::lowered(s.subrange(i + 1, i + 2)) =~= seq!['a']);
        lemma_end_lowered(s[i + 2]);
        assert(formats_at(s, i, 1));
    }
}

proof fn lemma_end_lowered(c: char)
    ensures
        is_html_space(text::ascii_lower(c)) ==> text::ascii_lower(c) == c,
        ends_name(text::ascii_lower(c)) ==> text::ascii_lower(c) == c,
{
}

/// A control word for formatting that needs a space behind it.
pub open spec fn is_spaced_word(word: Seq<char>) -> bool {
    ||| word == "\\b "@
    ||| word == "\\i "@
    ||| word == "\\ul "@
    ||| word == "\\sub "@
    ||| word == "\\super "@
}

/// A toggle for formatting.
pub open spec fn is_toggle(word: Seq<char>) -> bool {
    ||| word == "\\strike"@
    ||| word == "\\striked"@
    ||| word == "\\highlight"@
}

/// A control word for formatting without an "off" form.
pub open spec fn is_plain_word(word: Seq<char>) -> bool {
    ||| word == "\\pict"@
    ||| word == "\\bullet"@
}

/// Every formatting word makes a text rich, with whatever before it: one that
/// needs a space with whatever behind it, the others where no letter goes on with
/// them and, for a toggle, where the number 0 does not switch it off.
pub proof fn law_every_formatting_word_makes_rich(
    before: Seq<char>,
    word: Seq<char>,
    behind: Seq<char>,
)
    ensures
        is_spaced_word(word) ==> is_rich_rtf(before + word + behind),
        is_plain_word(word) && (behind.len() == 0 || !('a' <= behind[0] <= 'z' || 'A' <= behind[0]
            <= 'Z')) ==> is_rich_rtf(before + word + behind),
        is_toggle(word) && (behind.len() == 0 || !('a' <= behind[0] <= 'z' || 'A' <= behind[0]
            <= 'Z' || behind[0] == '0')) ==> is_rich_rtf(before + word + behind),
        is_toggle(word) && behind.len() > 1 && behind[0] == '0' && '0' <= behind[1] <= '9'
            ==> is_rich_rtf(before + word + behind),
{
    let s = before + word + behind;
    let i = before.len() as int;
    let end = i + word.len();
    assert(s.subrange(i, end) =~= word);
    assert(text::occurs_at(s, word, i));
    assert(behind.len() > 0 ==> s[end] == behind[0]);
    assert(behind.len() > 1 ==> s[end + 1] == behind[1]);
    if is_spaced_word(word) {
        assert(spaced_words()[0] == "\\b "@ && spaced_words()[1] == "\\i "@ && spaced_words()[2]
            == "\\ul "@ && spaced_words()[3] == "\\sub "@ && spaced_words()[4] == "\\super "@);
        assert(text::occurs(s, word));
        assert(has_spaced_word(s));
    }
    if is_plain_word(word) && (behind.len() == 0 || !('a' <= behind[0] <= 'z' || 'A' <= behind[0]
        <= 'Z')) {
        assert(plain_words()[0] == "\\pict"@ && plain_words()[1] == "\\bullet"@);
        assert(word_at(s, word, false, i));
        let k = if word == "\\pict"@ {
            0int
        } else {
            1
        };
        assert(word_at(s, plain_words()[k], false, i));
    }
    if is_toggle(word) && (behind.len() == 0 || !('a' <= behind[0] <= 'z' || 'A' <= behind[0]
        <= 'Z' || behind[0] == '0') || (behind.len() > 1 && behind[0] == '0' && '0' <= behind[1]
        <= '9')) {
        assert(toggle_words()[0] == "\\strike"@ && toggle_words()[1] == "\\striked"@
            && toggle_words()[2] == "\\highlight"@);
        assert(word_at(s, word, true, i));
        let k = if word == "\\strike"@ {
            0int
        } else if word == "\\striked"@ {
            1
        } else {
            2
        };
        assert(word_at(s, toggle_words()[k], true, i));
    }
}

/// `s` is made of what stands before a word, the word and what stands behind it,
/// and the word makes RTF rich there.
pub open spec fn formats_with(
    s: Seq<char>,
    before: Seq<char>,
    word: Seq<char>,
    behind: Seq<char>,
) -> bool {
    let goes_on = behind.len() > 0 && ('a' <= behind[0] <= 'z' || 'A' <= behind[0] <= 'Z');
    let off = behind.len() > 0 && behind[0] == '0' && (behind.len() == 1 || !('0' <= behind[1]
        <= '9'));
    &&& s == before + word + behind
    &&& is_spaced_word(word) || (is_plain_word(word) && !goes_on) || (is_toggle(word) && !goes_on
        && !off)
}

/// RTF is rich only where a formatting word stands in it that no letter goes on
/// with and that is not switched off.
pub proof fn law_rich_rtf_has_a_word(s: Seq<char>)
    requires
        is_rich_rtf(s),
    ensures
        exists|before: Seq<char>, word: Seq<char>, behind: Seq<char>|
            formats_with(s, before, word, behind),
{
    let (word, i) = if has_spaced_word(s) {
        let k = choose|k: int|
            0 <= k < spaced_words().len() && text::occurs(s, #[trigger] spaced_words()[k]);
        (spaced_words()[k], choose|i: int| text::occurs_at(s, spaced_words()[k], i))
    } else if has_word(s, toggle_words(), true) {
        let (k, i) = choose|k: int, i: int|
            0 <= k < toggle_words().len() && #[trigger] word_at(s, toggle_words()[k], true, i);
        (toggle_words()[k], i)
    } else {
        let (k, i) = choose|k: int, i: int|
            0 <= k < plain_words().len() && #[trigger] word_at(s, plain_words()[k], false, i);
        (plain_words()[k], i)
    };
    let before = s.take(i);
    let behind = s.skip(i + word.len());
    assert(before + word + behind =~= s);
    assert(behind.len() > 0 ==> behind[0] == s[i + word.len()]);
    assert(behind.len() > 1 ==> behind[1] == s[i + word.len() + 1]);
    assert(formats_with(s, before, word, behind));
}

} // verus!
