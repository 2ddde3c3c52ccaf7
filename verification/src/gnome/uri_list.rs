//! Lists of URIs, as `text/uri-list` and `x-special/gnome-copied-files` hold them.

use crate::event;
use crate::list;
use crate::path;
use crate::text;
use vstd::prelude::*;

verus! {

/// A line without the carriage return at its end.
pub open spec fn without_cr(line: Seq<char>) -> Seq<char> {
    if line.len() > 0 && line.last() == '\r' {
        line.drop_last()
    } else {
        line
    }
}

/// The lines of a text. A line feed, with or without a carriage return before
/// it, ends a line; behind the last one there is no empty line, and what is left
/// without one is a line as it stands.
pub open spec fn lines(s: Seq<char>) -> Seq<Seq<char>>
    decreases s.len(),
{
    let n = text::before_char(s, '\n') as int;
    if s.len() == 0 {
        seq![]
    } else if n >= s.len() {
        seq![s]
    } else {
        seq![without_cr(s.take(n))] + lines(s.skip(n + 1))
    }
}

/// The lines of a list of URIs, without the white space around them. Where the
/// first line is a verb, it is left out.
pub open spec fn uri_lines(s: Seq<char>, verb_first: bool) -> Seq<Seq<char>> {
    let all = lines(s);
    let body = if verb_first && all.len() > 0 {
        all.skip(1)
    } else {
        all
    };
    body.map_values(|line: Seq<char>| text::trimmed(line))
}

/// A line that holds a URI: not empty, and not a comment.
pub open spec fn is_uri(line: Seq<char>) -> bool {
    line.len() > 0 && line[0] != '#'
}

/// The paths of a list of URIs, at most `max` of them.
pub open spec fn uri_paths(s: Seq<char>, verb_first: bool, max: nat) -> Seq<Seq<char>> {
    list::first_of(
        uri_lines(s, verb_first).filter(|line: Seq<char>| is_uri(line)).map_values(
            |line: Seq<char>| path::normalized(line),
        ),
        max,
    )
}

/// The lines that the bounds mark in `s`.
pub open spec fn marked(s: Seq<char>, bounds: Seq<(usize, usize)>) -> Seq<Seq<char>> {
    bounds.map_values(|b: (usize, usize)| s.subrange(b.0 as int, b.1 as int))
}

/// The bounds of the lines of `v`.
fn line_bounds(v: &[char]) -> (r: Vec<(usize, usize)>)
    ensures
        marked(v@, r@) == lines(v@),
        forall|k: int| 0 <= k < r@.len() ==> (#[trigger] r@[k]).0 <= r@[k].1 <= v@.len(),
{
    let mut out: Vec<(usize, usize)> = Vec::new();
    let mut from: usize = 0;
    assert(v@.skip(0) =~= v@);
    assert(marked(v@, out@) + lines(v@) =~= lines(v@));
    while from < v.len()
        invariant
            from <= v@.len(),
            marked(v@, out@) + lines(v@.skip(from as int)) == lines(v@),
            forall|k: int|
                0 <= k < out@.len() ==> (#[trigger] out@[k]).0 <= out@[k].1 <= v@.len(),
        decreases v@.len() - from,
    {
        let ghost rest = v@.skip(from as int);
        let ghost done = marked(v@, out@);
        let feed: usize = text::find_char(v, from, '\n');
        let ghost n = feed - from;
        if feed == v.len() {
            out.push((from, feed));
            assert(marked(v@, out@) =~= done.push(rest)) by {
                assert(v@.subrange(from as int, feed as int) =~= rest);
            }
            assert(v@.skip(feed as int).len() == 0);
            assert(marked(v@, out@) + lines(v@.skip(feed as int)) =~= done + lines(rest));
            from = feed;
        } else {
            let end: usize = if feed > from && v[feed - 1] == '\r' {
                feed - 1
            } else {
                feed
            };
            assert(v@.subrange(from as int, feed as int) =~= rest.take(n));
            assert(v@.subrange(from as int, end as int) =~= without_cr(rest.take(n)));
            out.push((from, end));
            assert(marked(v@, out@) =~= done.push(without_cr(rest.take(n))));
            assert(rest.skip(n + 1) =~= v@.skip(feed + 1));
            assert(marked(v@, out@) + lines(v@.skip(feed + 1)) =~= done + lines(rest));
            from = feed + 1;
        }
    }
    assert(v@.skip(from as int).len() == 0);
    assert(marked(v@, out@) + lines(v@.skip(from as int)) =~= marked(v@, out@));
    out
}

/// Parse `text/uri-list` (or `x-special/gnome-copied-files`, whose first line
/// is the "copy"/"cut" verb) into normalized filesystem paths.
pub fn parse_uri_list(text: &str, gnome_copied_files: bool, max_files: usize) -> (r: Vec<String>)
    ensures
        event::texts(r@) == uri_paths(text@, gnome_copied_files, max_files as nat),
{
    let v: Vec<char> = text::chars_of(text);
    let bounds: Vec<(usize, usize)> = line_bounds(&v);
    let skipped: usize = if gnome_copied_files && bounds.len() > 0 {
        1
    } else {
        0
    };
    let ghost all = uri_lines(text@, gnome_copied_files);
    let ghost keep = |line: Seq<char>| is_uri(line);
    let ghost norm = |line: Seq<char>| path::normalized(line);
    assert(lines(text@).len() == bounds@.len());
    assert(all.len() == bounds@.len() - skipped);
    assert forall|k: int| 0 <= k < all.len() implies #[trigger] all[k] == text::trimmed(
        v@.subrange(bounds@[k + skipped].0 as int, bounds@[k + skipped].1 as int),
    ) by {
        assert(marked(v@, bounds@)[k + skipped] == lines(text@)[k + skipped]);
    }
    let mut out: Vec<String> = Vec::new();
    let mut i: usize = skipped;
    assert(all.take(0).filter(keep) =~= Seq::empty()) by {
        reveal(Seq::filter);
    }
    assert(event::texts(out@) =~= all.take(0).filter(keep).map_values(norm));
    while i < bounds.len() && out.len() < max_files
        invariant
            v@ == text@,
            all.len() == bounds@.len() - skipped,
            keep == (|line: Seq<char>| is_uri(line)),
            norm == (|line: Seq<char>| path::normalized(line)),
            forall|k: int|
                0 <= k < bounds@.len() ==> (#[trigger] bounds@[k]).0 <= bounds@[k].1 <= v@.len(),
            forall|k: int|
                0 <= k < all.len() ==> #[trigger] all[k] == text::trimmed(
                    v@.subrange(bounds@[k + skipped].0 as int, bounds@[k + skipped].1 as int),
                ),
            skipped <= i <= bounds@.len(),
            out@.len() <= max_files,
            event::texts(out@) == all.take(i - skipped).filter(keep).map_values(norm),
        decreases bounds@.len() - i,
    {
        let ghost at = i - skipped;
        let ghost done = event::texts(out@);
        assert(all.take(at + 1).drop_last() =~= all.take(at));
        proof {
            reveal(Seq::filter);
        }
        let (start, end): (usize, usize) = text::trim_bounds(&v, bounds[i].0, bounds[i].1);
        assert(all[at] == v@.subrange(start as int, end as int));
        if start < end && v[start] != '#' {
            let file: String = path::normalize_file_path(text.substring_char(start, end));
            out.push(file);
            assert(event::texts(out@) =~= done.push(file@));
            assert(all.take(at + 1).filter(keep) =~= all.take(at).filter(keep).push(all[at]));
            assert(all.take(at + 1).filter(keep).map_values(norm) =~= done.push(file@));
        }
        i += 1;
    }
    proof {
        assert(event::texts(out@).len() == out@.len());
        list::lemma_first_of_filtered(all, i - skipped, keep, norm, max_files as nat);
    }
    out
}

/// Of a list of URIs at most `max` paths are taken, and each is the path of a
/// line that is neither empty nor a comment.
pub proof fn law_uri_paths_are_capped(s: Seq<char>, verb_first: bool, max: nat)
    ensures
        uri_paths(s, verb_first, max).len() <= max,
        forall|i: int|
            0 <= i < uri_paths(s, verb_first, max).len() ==> is_path_of_line(
                uri_lines(s, verb_first),
                #[trigger] uri_paths(s, verb_first, max)[i],
            ),
{
    let keep = |line: Seq<char>| is_uri(line);
    let all = uri_lines(s, verb_first);
    assert forall|i: int| 0 <= i < uri_paths(s, verb_first, max).len() implies is_path_of_line(
        all,
        #[trigger] uri_paths(s, verb_first, max)[i],
    ) by {
        let k = list::lemma_filtered_stands(all, keep, i);
        assert(is_uri(all[k]));
    }
}

/// `file` is the path of one of the lines that hold a URI.
pub open spec fn is_path_of_line(all: Seq<Seq<char>>, file: Seq<char>) -> bool {
    exists|k: int|
        0 <= k < all.len() && is_uri(#[trigger] all[k]) && path::normalized(all[k]) == file
}

/// `url` is a file URL of a path, escaped so that it fits on a line: it holds no
/// line feed, and no white space at its end.
pub open spec fn is_url_of(url: Seq<char>, file: Seq<char>) -> bool {
    let n = path::file_scheme().len() as int;
    &&& text::occurs_at(url, path::file_scheme(), 0)
    &&& path::is_escaped(url.skip(n), file)
    &&& !url.contains('\n')
    &&& !text::is_white_space(url.last())
}

/// Each of `urls` is a file URL of one of `files`, in their order.
pub open spec fn are_urls_of(urls: Seq<Seq<char>>, files: Seq<Seq<char>>) -> bool {
    &&& urls.len() == files.len()
    &&& forall|k: int| 0 <= k < urls.len() ==> is_url_of(#[trigger] urls[k], files[k])
}

/// Every path has a file URL that fits on a line.
pub proof fn law_every_path_has_a_url(file: Seq<char>)
    ensures
        is_url_of(path::file_scheme() + path::fully_escaped(file), file),
{
    reveal_strlit("file://");
    let scheme = path::file_scheme();
    let e = path::fully_escaped(file);
    let url = scheme + e;
    path::law_every_text_can_be_escaped(file);
    assert(url.subrange(0, scheme.len() as int) =~= scheme);
    assert(url.skip(scheme.len() as int) =~= e);
    assert forall|k: int| 0 <= k < url.len() implies !text::is_white_space(#[trigger] url[k]) by {
        if k >= scheme.len() {
            assert(url[k] == e[k - scheme.len()]);
        } else {
            assert(url[k] == scheme[k]);
        }
    }
    assert(!text::is_white_space(url[url.len() - 1]));
    if url.contains('\n') {
        let k = choose|k: int| 0 <= k < url.len() && url[k] == '\n';
        assert(!text::is_white_space(url[k]));
    }
}

/// The list of URLs, each on a line of its own.
pub open spec fn url_list(urls: Seq<Seq<char>>) -> Seq<char>
    decreases urls.len(),
{
    if urls.len() == 0 {
        seq![]
    } else {
        urls[0] + seq!['\r', '\n'] + url_list(urls.skip(1))
    }
}

/// A file URL begins like one, holds nothing to trim and gives its path.
proof fn lemma_url_of(url: Seq<char>, file: Seq<char>)
    requires
        is_url_of(url, file),
    ensures
        url.len() > 0,
        text::trimmed(url) == url,
        is_uri(url),
        path::normalized(url) == file,
{
    reveal_strlit("file://");
    let scheme = path::file_scheme();
    let n = scheme.len() as int;
    assert(url.subrange(0, n)[0] == url[0]);
    assert(!text::is_white_space(url[0]));
    assert(url =~= scheme + url.skip(n));
    path::law_file_url_is_its_path(url.skip(n), file);
}

proof fn lemma_line_comes_off(line: Seq<char>, rest: Seq<char>)
    requires
        !line.contains('\n'),
        line.len() == 0 || line.last() != '\r',
    ensures
        lines(line + seq!['\n'] + rest) == seq![line] + lines(rest),
        lines(line + seq!['\r', '\n'] + rest) == seq![line] + lines(rest),
{
    let a = line + seq!['\n'] + rest;
    text::lemma_before_char_skips(line, '\n', rest);
    assert(a.take(line.len() as int) =~= line);
    assert(a.skip(line.len() as int + 1) =~= rest);
    let cr = line.push('\r');
    let b = line + seq!['\r', '\n'] + rest;
    assert(b =~= cr + seq!['\n'] + rest);
    assert(!cr.contains('\n')) by {
        if cr.contains('\n') {
            let k = choose|k: int| 0 <= k < cr.len() && cr[k] == '\n';
            assert(line[k] == '\n');
        }
    }
    text::lemma_before_char_skips(cr, '\n', rest);
    assert(b.take(cr.len() as int) =~= cr);
    assert(without_cr(cr) =~= line);
    assert(b.skip(cr.len() as int + 1) =~= rest);
}

proof fn lemma_url_list_lines(urls: Seq<Seq<char>>)
    requires
        forall|k: int|
            0 <= k < urls.len() ==> !(#[trigger] urls[k]).contains('\n') && !text::is_white_space(
                urls[k].last(),
            ),
    ensures
        lines(url_list(urls)) == urls,
    decreases urls.len(),
{
    if urls.len() == 0 {
        assert(lines(url_list(urls)) =~= urls);
    } else {
        let rest = urls.skip(1);
        assert forall|k: int| 0 <= k < rest.len() implies !(#[trigger] rest[k]).contains('\n')
            && !text::is_white_space(rest[k].last()) by {
            assert(rest[k] == urls[k + 1]);
        }
        assert(!text::is_white_space(urls[0].last()));
        lemma_line_comes_off(urls[0], url_list(rest));
        lemma_url_list_lines(rest);
        assert(seq![urls[0]] + rest =~= urls);
    }
}

proof fn lemma_urls_give_paths(files: Seq<Seq<char>>, urls: Seq<Seq<char>>, max: nat)
    requires
        are_urls_of(urls, files),
    ensures
        list::first_of(
            urls.map_values(|line: Seq<char>| text::trimmed(line)).filter(
                |line: Seq<char>| is_uri(line),
            ).map_values(|line: Seq<char>| path::normalized(line)),
            max,
        ) == list::first_of(files, max),
{
    let keep = |line: Seq<char>| is_uri(line);
    let trimmed = urls.map_values(|line: Seq<char>| text::trimmed(line));
    assert forall|k: int| 0 <= k < files.len() implies #[trigger] trimmed[k] == urls[k] && keep(
        trimmed[k],
    ) && path::normalized(trimmed[k]) == files[k] by {
        lemma_url_of(urls[k], files[k]);
    }
    list::lemma_filter_keeps_all(trimmed, keep);
    assert(trimmed.map_values(|line: Seq<char>| path::normalized(line)) =~= files);
}

/// The paths of a list of file URLs are the paths that it was made of, at most
/// `max` of them, whatever characters they hold and whichever of them are escaped;
/// and so behind the line with the verb.
pub proof fn law_url_list_reads_back(
    files: Seq<Seq<char>>,
    urls: Seq<Seq<char>>,
    verb: Seq<char>,
    max: nat,
)
    requires
        are_urls_of(urls, files),
        !verb.contains('\n'),
        verb.len() == 0 || verb.last() != '\r',
    ensures
        uri_paths(url_list(urls), false, max) == list::first_of(files, max),
        uri_paths(verb + seq!['\n'] + url_list(urls), true, max) == list::first_of(files, max),
{
    lemma_url_list_lines(urls);
    lemma_urls_give_paths(files, urls, max);
    lemma_line_comes_off(verb, url_list(urls));
    assert((seq![verb] + urls).skip(1) =~= urls);
}

proof fn lemma_first_kept(first: Seq<char>, rest: Seq<Seq<char>>, max: nat)
    ensures
        ({
            let keep = |line: Seq<char>| is_uri(line);
            let norm = |line: Seq<char>| path::normalized(line);
            let all = seq![first] + rest;
            list::first_of(all.filter(keep).map_values(norm), max) == if !is_uri(first) {
                list::first_of(rest.filter(keep).map_values(norm), max)
            } else if max == 0 {
                seq![]
            } else {
                seq![path::normalized(first)] + list::first_of(
                    rest.filter(keep).map_values(norm),
                    (max - 1) as nat,
                )
            }
        }),
{
    let keep = |line: Seq<char>| is_uri(line);
    let norm = |line: Seq<char>| path::normalized(line);
    let one = seq![first];
    let all = one + rest;
    Seq::filter_distributes_over_add(one, rest, keep);
    let kept = one.filter(keep);
    assert(one.drop_last() =~= Seq::empty());
    assert(kept == if is_uri(first) {
        one
    } else {
        Seq::empty()
    }) by {
        reveal(Seq::filter);
        assert(Seq::<Seq<char>>::empty().filter(keep) =~= Seq::empty());
        assert(kept =~= if is_uri(first) {
            one
        } else {
            Seq::empty()
        });
    }
    let tail = rest.filter(keep).map_values(norm);
    let paths = all.filter(keep).map_values(norm);
    if is_uri(first) {
        assert(paths =~= seq![path::normalized(first)] + tail);
        if max > 0 {
            assert(list::first_of(paths, max) =~= seq![path::normalized(first)] + list::first_of(
                tail,
                (max - 1) as nat,
            ));
        } else {
            assert(list::first_of(paths, max) =~= Seq::empty());
        }
    } else {
        assert(paths =~= tail);
    }
}

/// A list of URIs goes line by line, whatever follows: a line that holds a URI,
/// with white space around it or not, gives its path before those of the lines that
/// follow, as long as there is room; an empty line and a comment give nothing. A
/// line ends at a line feed, with or without a carriage return before it. Where the
/// first line is a verb, the list begins behind it.
pub proof fn law_uri_list_line_by_line(line: Seq<char>, rest: Seq<char>, max: nat)
    requires
        !line.contains('\n'),
        line.len() == 0 || line.last() != '\r',
    ensures
        ({
            let uri = text::trimmed(line);
            let more = if uri.len() == 0 || uri[0] == '#' {
                uri_paths(rest, false, max)
            } else if max == 0 {
                seq![]
            } else {
                seq![path::normalized(uri)] + uri_paths(rest, false, (max - 1) as nat)
            };
            &&& uri_paths(line + seq!['\n'] + rest, false, max) == more
            &&& uri_paths(line + seq!['\r', '\n'] + rest, false, max) == more
            &&& uri_paths(line + seq!['\n'] + rest, true, max) == uri_paths(rest, false, max)
            &&& uri_paths(line + seq!['\r', '\n'] + rest, true, max) == uri_paths(rest, false, max)
        }),
{
    lemma_line_comes_off(line, rest);
    let all = seq![line] + lines(rest);
    let trim = |l: Seq<char>| text::trimmed(l);
    assert(all.map_values(trim) =~= seq![text::trimmed(line)] + lines(rest).map_values(trim));
    assert(all.skip(1) =~= lines(rest));
    lemma_first_kept(text::trimmed(line), lines(rest).map_values(trim), max);
}

/// The last line needs no line feed, and of no text there are no paths.
pub proof fn law_last_line_needs_no_line_feed(line: Seq<char>, max: nat)
    requires
        !line.contains('\n'),
    ensures
        uri_paths(seq![], false, max).len() == 0,
        uri_paths(seq![], true, max).len() == 0,
        uri_paths(line, true, max).len() == 0,
        uri_paths(line, false, max) == ({
            let uri = text::trimmed(line);
            if uri.len() == 0 || uri[0] == '#' || max == 0 {
                Seq::<Seq<char>>::empty()
            } else {
                seq![path::normalized(uri)]
            }
        }),
{
    let keep = |l: Seq<char>| is_uri(l);
    let trim = |l: Seq<char>| text::trimmed(l);
    let norm = |l: Seq<char>| path::normalized(l);
    let none = Seq::<Seq<char>>::empty();
    assert(lines(seq![]) =~= none);
    assert(none.map_values(trim) =~= none);
    assert(none.filter(keep) =~= none) by {
        reveal(Seq::filter);
    }
    assert(none.map_values(norm) =~= none);
    if line.len() == 0 {
        assert(line =~= seq![]);
        text::law_only_white_space_trims_to_nothing(line);
        assert(uri_paths(line, false, max) =~= none);
    } else {
        lemma_no_line_feed(line);
        assert(lines(line) =~= seq![line]);
        assert(seq![line].skip(1) =~= none);
        assert(seq![line].map_values(trim) =~= seq![text::trimmed(line)] + none);
        lemma_first_kept(text::trimmed(line), none, max);
    }
}

proof fn lemma_no_line_feed(s: Seq<char>)
    requires
        !s.contains('\n'),
    ensures
        text::before_char(s, '\n') == s.len(),
    decreases s.len(),
{
    if s.len() > 0 {
        assert(s.contains(s[0]));
        assert(!s.skip(1).contains('\n')) by {
            if s.skip(1).contains('\n') {
                let k = choose|k: int| 0 <= k < s.skip(1).len() && s.skip(1)[k] == '\n';
                assert(s[k + 1] == '\n');
            }
        }
        lemma_no_line_feed(s.skip(1));
    }
}

} // verus!
