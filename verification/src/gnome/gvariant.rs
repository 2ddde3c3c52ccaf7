//! The text form of string arrays in the settings of GNOME: `['a', 'b']`, `[]`,
//! `@as []`. Extension UUIDs contain no quotes, so quotes delimit and nothing is
//! escaped.

use crate::event;
use crate::text;
use vstd::prelude::*;

verus! {

/// A character that delimits an entry.
pub open spec fn is_quote(c: char) -> bool {
    c == '\'' || c == '"'
}

/// The number of characters before the first quote of either kind; all where
/// there is none.
pub open spec fn before_quote(s: Seq<char>) -> nat
    decreases s.len(),
{
    if s.len() == 0 || is_quote(s[0]) {
        0
    } else {
        1 + before_quote(s.skip(1))
    }
}

/// The entries of a text: what stands between a quote and the next quote of
/// that kind. An entry that is not closed ends the list.
pub open spec fn entries(s: Seq<char>) -> Seq<Seq<char>>
    decreases s.len(),
{
    let i = before_quote(s) as int;
    if i >= s.len() {
        seq![]
    } else {
        let after = s.skip(i + 1);
        let n = text::before_char(after, s[i]) as int;
        if n >= after.len() {
            seq![]
        } else {
            seq![after.take(n)] + entries(after.skip(n + 1))
        }
    }
}

/// The entries of a text form.
pub open spec fn parsed(s: Seq<char>) -> Seq<Seq<char>> {
    entries(text::trimmed(s))
}

/// An entry between single quotes.
pub open spec fn quoted(s: Seq<char>) -> Seq<char> {
    "'"@ + s + "'"@
}

/// Entries in quotes, a comma and a space between them.
pub open spec fn listed(items: Seq<Seq<char>>) -> Seq<char>
    decreases items.len(),
{
    if items.len() == 0 {
        seq![]
    } else if items.len() == 1 {
        quoted(items[0])
    } else {
        listed(items.drop_last()) + ", "@ + quoted(items.last())
    }
}

/// The text form of a list.
pub open spec fn formatted(items: Seq<Seq<char>>) -> Seq<char> {
    "["@ + listed(items) + "]"@
}

/// The position of the first quote in `v` from `from` on.
fn find_quote(v: &[char], from: usize) -> (r: usize)
    requires
        from <= v@.len(),
    ensures
        from <= r <= v@.len(),
        r - from == before_quote(v@.skip(from as int)),
{
    let mut i: usize = from;
    while i < v.len() && v[i] != '\'' && v[i] != '"'
        invariant
            from <= i <= v@.len(),
            i - from + before_quote(v@.skip(i as int)) == before_quote(v@.skip(from as int)),
        decreases v@.len() - i,
    {
        assert(v@.skip(i as int).skip(1) =~= v@.skip(i + 1));
        i += 1;
    }
    i
}

/// Parse the text form of a string array: `['a', 'b']`, `[]`, `@as []`.
/// Anything unparsable yields the entries that could be read.
pub fn parse_gvariant_string_array(text: &str) -> (r: Vec<String>)
    ensures
        event::texts(r@) == parsed(text@),
{
    let v: Vec<char> = text::chars_of(text);
    let (start, end): (usize, usize) = text::trim_bounds(&v, 0, v.len());
    assert(v@.subrange(0, v@.len() as int) =~= text@);
    let trimmed: &str = text.substring_char(start, end);
    let t: Vec<char> = text::chars_of(trimmed);
    let mut out: Vec<String> = Vec::new();
    let mut rest: usize = 0;
    assert(t@.skip(0) =~= t@);
    assert(event::texts(out@) + entries(t@) =~= entries(t@));
    loop
        invariant
            rest <= t@.len(),
            t@ == trimmed@,
            event::texts(out@) + entries(t@.skip(rest as int)) == entries(t@),
        ensures
            event::texts(out@) == entries(t@),
        decreases t@.len() - rest,
    {
        let ghost s = t@.skip(rest as int);
        let ghost done = event::texts(out@);
        let open: usize = find_quote(&t, rest);
        if open == t.len() {
            assert(done + entries(s) =~= done);
            break ;
        }
        let quote: char = t[open];
        assert(s[open - rest] == quote);
        let close: usize = text::find_char(&t, open + 1, quote);
        assert(s.skip(open - rest + 1) =~= t@.skip(open + 1));
        if close == t.len() {
            assert(done + entries(s) =~= done);
            break ;
        }
        let entry: String = trimmed.substring_char(open + 1, close).to_owned();
        let ghost after = t@.skip(open + 1);
        let ghost n = close - (open + 1);
        assert(entry@ =~= after.take(n));
        assert(after.skip(n + 1) =~= t@.skip(close + 1));
        out.push(entry);
        assert(event::texts(out@) =~= done.push(entry@));
        assert(event::texts(out@) + entries(t@.skip(close + 1)) =~= done + entries(s));
        rest = close + 1;
    }
    out
}

/// The text form of a list of strings.
pub fn format_gvariant_string_array(items: &[String]) -> (r: String)
    ensures
        r@ == formatted(event::texts(items@)),
{
    let ghost all = event::texts(items@);
    let mut out: String = "[".to_owned();
    assert(out@ =~= "["@ + listed(all.take(0)));
    for i in 0..items.len()
        invariant
            all == event::texts(items@),
            out@ == "["@ + listed(all.take(i as int)),
    {
        let ghost before = all.take(i as int);
        let ghost next = all.take(i + 1);
        assert(next.drop_last() =~= before);
        assert(next.last() == items@[i as int]@);
        if i > 0 {
            out.append(", ");
        } else {
            assert(listed(before) =~= Seq::empty());
        }
        out.append("'");
        out.append(items[i].as_str());
        out.append("'");
        assert(out@ =~= "["@ + listed(next));
    }
    assert(all.take(items@.len() as int) =~= all);
    out.append("]");
    out
}

proof fn lemma_entries_skip(c: char, s: Seq<char>)
    requires
        !is_quote(c),
    ensures
        entries(seq![c] + s) == entries(s),
{
    let t = seq![c] + s;
    assert(t.skip(1) =~= s);
    let i = before_quote(s) as int;
    assert(before_quote(t) == 1 + before_quote(s));
    if i < s.len() {
        assert(t[i + 1] == s[i]);
        assert(t.skip(i + 2) =~= s.skip(i + 1));
    }
}

proof fn lemma_entries_quoted(x: Seq<char>, rest: Seq<char>)
    requires
        !x.contains('\''),
    ensures
        entries(quoted(x) + rest) == seq![x] + entries(rest),
{
    reveal_strlit("'");
    let s = quoted(x) + rest;
    assert("'"@ =~= seq!['\'']);
    let after = x + seq!['\''] + rest;
    assert(s.skip(1) =~= after);
    text::lemma_before_char_skips(x, '\'', rest);
    assert(after.take(x.len() as int) =~= x);
    assert(after.skip(x.len() as int + 1) =~= rest);
}

proof fn lemma_entries_listed(items: Seq<Seq<char>>, tail: Seq<char>)
    requires
        forall|k: int| 0 <= k < items.len() ==> !(#[trigger] items[k]).contains('\''),
    ensures
        entries(listed(items) + tail) == items + entries(tail),
    decreases items.len(),
{
    if items.len() == 0 {
        assert(listed(items) + tail =~= tail);
    } else if items.len() == 1 {
        lemma_entries_quoted(items[0], tail);
        assert(items =~= seq![items[0]]);
    } else {
        reveal_strlit(", ");
        let before = items.drop_last();
        let last = items.last();
        let more = quoted(last) + tail;
        assert forall|k: int| 0 <= k < before.len() implies !(#[trigger] before[k]).contains(
            '\'',
        ) by {
            assert(before[k] == items[k]);
        }
        lemma_entries_listed(before, ", "@ + more);
        assert(", "@ + more =~= seq![','] + (seq![' '] + more));
        lemma_entries_skip(',', seq![' '] + more);
        lemma_entries_skip(' ', more);
        assert(!items[items.len() - 1].contains('\''));
        lemma_entries_quoted(last, tail);
        assert(listed(items) + tail =~= listed(before) + (", "@ + more));
        assert(before + (seq![last] + entries(tail)) =~= items + entries(tail));
    }
}

/// Reading a list back from its text form gives the list, as long as no entry
/// holds a single quote.
pub proof fn law_list_reads_back(items: Seq<Seq<char>>)
    requires
        forall|k: int| 0 <= k < items.len() ==> !(#[trigger] items[k]).contains('\''),
    ensures
        parsed(formatted(items)) == items,
{
    reveal_strlit("[");
    reveal_strlit("]");
    let s = formatted(items);
    assert(s[0] == '[');
    assert(s.last() == ']');
    assert(text::trimmed(s) == s);
    lemma_entries_listed(items, "]"@);
    assert("]"@ =~= seq![']'] + Seq::<char>::empty());
    lemma_entries_skip(']', Seq::empty());
    assert(entries(Seq::<char>::empty()) =~= Seq::empty());
    assert(s =~= seq!['['] + (listed(items) + "]"@));
    lemma_entries_skip('[', listed(items) + "]"@);
    assert(items + Seq::<Seq<char>>::empty() =~= items);
}

/// No quote of either kind stands in the text.
pub open spec fn without_quotes(s: Seq<char>) -> bool {
    forall|k: int| 0 <= k < s.len() ==> #[trigger] s[k] != '\'' && s[k] != '"'
}

proof fn lemma_entries_skip_all(pre: Seq<char>, s: Seq<char>)
    requires
        without_quotes(pre),
    ensures
        entries(pre + s) == entries(s),
    decreases pre.len(),
{
    if pre.len() == 0 {
        assert(pre + s =~= s);
    } else {
        let rest = pre.skip(1);
        assert forall|k: int| 0 <= k < rest.len() implies #[trigger] rest[k] != '\'' && rest[k]
            != '"' by {
            assert(rest[k] == pre[k + 1]);
        }
        lemma_entries_skip_all(rest, s);
        assert(pre[0] != '\'' && pre[0] != '"');
        lemma_entries_skip(pre[0], rest + s);
        assert(seq![pre[0]] + (rest + s) =~= pre + s);
    }
}

proof fn lemma_before_quote_tail(s: Seq<char>, w: Seq<char>)
    requires
        without_quotes(w),
    ensures
        before_quote(s) < s.len() ==> before_quote(s + w) == before_quote(s),
        before_quote(s) >= s.len() ==> before_quote(s + w) == s.len() + w.len(),
        before_quote(s) <= s.len(),
    decreases s.len() + w.len(),
{
    let all = s + w;
    if s.len() > 0 {
        lemma_before_quote_tail(s.skip(1), w);
        assert(all.skip(1) =~= s.skip(1) + w);
    } else if w.len() > 0 {
        assert(w[0] != '\'' && w[0] != '"');
        assert forall|k: int| 0 <= k < w.skip(1).len() implies #[trigger] w.skip(1)[k] != '\''
            && w.skip(1)[k] != '"' by {
            assert(w.skip(1)[k] == w[k + 1]);
        }
        lemma_before_quote_tail(s, w.skip(1));
        assert(all.skip(1) =~= s + w.skip(1));
    }
}

proof fn lemma_before_char_tail(s: Seq<char>, c: char, w: Seq<char>)
    requires
        !w.contains(c),
    ensures
        text::before_char(s, c) < s.len() ==> text::before_char(s + w, c) == text::before_char(s, c),
        text::before_char(s, c) >= s.len() ==> text::before_char(s + w, c) == s.len() + w.len(),
        text::before_char(s, c) <= s.len(),
    decreases s.len() + w.len(),
{
    let all = s + w;
    if s.len() > 0 {
        lemma_before_char_tail(s.skip(1), c, w);
        assert(all.skip(1) =~= s.skip(1) + w);
    } else if w.len() > 0 {
        assert(w.contains(w[0]));
        assert(!w.skip(1).contains(c)) by {
            if w.skip(1).contains(c) {
                let k = choose|k: int| 0 <= k < w.skip(1).len() && w.skip(1)[k] == c;
                assert(w[k + 1] == c);
            }
        }
        lemma_before_char_tail(s, c, w.skip(1));
        assert(all.skip(1) =~= s + w.skip(1));
    }
}

/// A tail without quotes adds no entry.
proof fn lemma_entries_tail(s: Seq<char>, w: Seq<char>)
    requires
        without_quotes(w),
    ensures
        entries(s + w) == entries(s),
    decreases s.len(),
{
    let all = s + w;
    let i = before_quote(s) as int;
    lemma_before_quote_tail(s, w);
    if i < s.len() {
        let after = s.skip(i + 1);
        assert(all[i] == s[i]);
        assert(all.skip(i + 1) =~= after + w);
        lemma_quote_is_quote(s);
        assert(!w.contains(s[i]));
        lemma_before_char_tail(after, s[i], w);
        let n = text::before_char(after, s[i]) as int;
        if n < after.len() {
            assert((after + w).take(n) =~= after.take(n));
            assert((after + w).skip(n + 1) =~= after.skip(n + 1) + w);
            lemma_entries_tail(after.skip(n + 1), w);
        }
    }
}

proof fn lemma_quote_is_quote(s: Seq<char>)
    requires
        before_quote(s) < s.len(),
    ensures
        is_quote(s[before_quote(s) as int]),
    decreases s.len(),
{
    if !is_quote(s[0]) {
        lemma_quote_is_quote(s.skip(1));
    }
}

proof fn lemma_white_without_quotes(w: Seq<char>)
    requires
        text::all_white(w),
    ensures
        without_quotes(w),
{
    assert forall|k: int| 0 <= k < w.len() implies #[trigger] w[k] != '\'' && w[k] != '"' by {
        assert(text::is_white_space(w[k]));
    }
}

/// White space around a text matters to no entry.
proof fn lemma_parsed_is_entries(s: Seq<char>)
    ensures
        parsed(s) == entries(s),
{
    let (front, back) = text::lemma_trimmed_parts(s);
    let t = text::trimmed(s);
    lemma_white_without_quotes(front);
    lemma_white_without_quotes(back);
    lemma_entries_skip_all(front, t);
    lemma_entries_tail(front + t, back);
}

/// Reading goes quote by quote, whatever the text: what stands before the first
/// quote adds nothing, what stands between a quote of either kind and the next of
/// that kind is one entry, character for character, and what follows is read on.
/// Without a quote, or behind one that is not closed, there is nothing more.
pub proof fn law_entries_stand_between_quotes(
    pre: Seq<char>,
    quote: char,
    entry: Seq<char>,
    rest: Seq<char>,
)
    requires
        without_quotes(pre),
        quote == '\'' || quote == '"',
        !entry.contains(quote),
    ensures
        parsed(pre).len() == 0,
        parsed(pre + seq![quote] + entry).len() == 0,
        parsed(pre + seq![quote] + entry + seq![quote] + rest) == seq![entry] + parsed(rest),
{
    lemma_parsed_is_entries(pre);
    lemma_entries_skip_all(pre, seq![]);
    assert(pre + seq![] =~= pre);
    let open = seq![quote] + entry;
    lemma_parsed_is_entries(pre + seq![quote] + entry);
    assert(pre + seq![quote] + entry =~= pre + open);
    lemma_entries_skip_all(pre, open);
    assert(open.skip(1) =~= entry);
    lemma_before_char_tail(seq![], quote, entry);
    assert(Seq::<char>::empty() + entry =~= entry);
    let whole = seq![quote] + entry + seq![quote] + rest;
    lemma_parsed_is_entries(pre + seq![quote] + entry + seq![quote] + rest);
    assert(pre + seq![quote] + entry + seq![quote] + rest =~= pre + whole);
    lemma_entries_skip_all(pre, whole);
    let after = entry + seq![quote] + rest;
    assert(whole.skip(1) =~= after);
    text::lemma_before_char_skips(entry, quote, rest);
    assert(after.take(entry.len() as int) =~= entry);
    assert(after.skip(entry.len() as int + 1) =~= rest);
    lemma_parsed_is_entries(rest);
}

/// The text form of a list, entry by entry: brackets around, each entry whole
/// between single quotes, a comma and a space between two.
pub proof fn law_text_form_entry_by_entry(items: Seq<Seq<char>>, item: Seq<char>)
    ensures
        formatted(seq![]) == seq!['[', ']'],
        formatted(seq![item]) == seq!['[', '\''] + item + seq!['\'', ']'],
        items.len() > 0 ==> formatted(items.push(item)) == formatted(items).drop_last() + seq![
            ',',
            ' ',
            '\'',
        ] + item + seq!['\'', ']'],
{
    reveal_strlit("[");
    reveal_strlit("]");
    reveal_strlit("'");
    reveal_strlit(", ");
    assert(formatted(seq![]) =~= seq!['[', ']']);
    assert(listed(seq![item]) == quoted(seq![item][0]));
    assert(formatted(seq![item]) =~= seq!['[', '\''] + item + seq!['\'', ']']);
    if items.len() > 0 {
        assert(items.push(item).drop_last() =~= items);
        assert(formatted(items.push(item)) =~= formatted(items).drop_last() + seq![',', ' ', '\'']
            + item + seq!['\'', ']']);
    }
}

/// A list reads back from its text form with white space around it, as settings
/// commands print it.
pub proof fn law_list_reads_back_with_white_space_around(
    front: Seq<char>,
    items: Seq<Seq<char>>,
    back: Seq<char>,
)
    requires
        text::all_white(front),
        text::all_white(back),
        forall|k: int| 0 <= k < items.len() ==> !(#[trigger] items[k]).contains('\''),
    ensures
        parsed(front + formatted(items) + back) == items,
{
    let s = formatted(items);
    law_list_reads_back(items);
    lemma_parsed_is_entries(s);
    lemma_parsed_is_entries(front + s + back);
    lemma_white_without_quotes(front);
    lemma_white_without_quotes(back);
    lemma_entries_skip_all(front, s);
    lemma_entries_tail(front + s, back);
}

} // verus!
