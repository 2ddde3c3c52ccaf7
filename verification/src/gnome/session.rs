//! Which listener backend a Linux session needs.

use crate::text;
use crate::TriggerStatus;
use vstd::prelude::*;

verus! {

/// Which listener backend the current session needs.
#[derive(Debug, Clone, Copy, PartialEq, Eq, Structural)]
pub enum Session {
    /// X11 (including XWayland-free GNOME on Xorg): the key listener works.
    X11,
    /// GNOME on Wayland: use the Shell-extension D-Bus backend.
    GnomeWayland,
    /// Some other Wayland compositor (KDE, wlroots, ...): unsupported for now.
    OtherWayland,
}

/// The text of a variable that is set.
pub open spec fn var_view(v: Option<&str>) -> Option<Seq<char>> {
    match v {
        Some(s) => Some(s@),
        None => None,
    }
}

/// Two texts are the same, the case of ASCII letters aside.
pub open spec fn same_word(a: Seq<char>, b: Seq<char>) -> bool {
    text::lowered(a) == text::lowered(b)
}

/// A session is on Wayland: its display is named, or its type says so.
pub open spec fn is_wayland(
    wayland_display: Option<Seq<char>>,
    session_type: Option<Seq<char>>,
) -> bool {
    ||| wayland_display matches Some(v) && text::trimmed(v).len() > 0
    ||| session_type matches Some(v) && same_word(text::trimmed(v), "wayland"@)
}

/// The characters from `a` to `b` are one part of a colon-separated list.
pub open spec fn is_part(s: Seq<char>, a: int, b: int) -> bool {
    &&& 0 <= a <= b <= s.len()
    &&& a == 0 || s[a - 1] == ':'
    &&& b == s.len() || s[b] == ':'
    &&& forall|i: int| a <= i < b ==> s[i] != ':'
}

/// The part from `a` to `b` of a colon-separated list names GNOME.
pub open spec fn gnome_at(s: Seq<char>, a: int, b: int) -> bool {
    is_part(s, a, b) && same_word(text::trimmed(s.subrange(a, b)), "gnome"@)
}

/// A colon-separated list of desktops names GNOME.
pub open spec fn lists_gnome(s: Seq<char>) -> bool {
    exists|a: int, b: int| gnome_at(s, a, b)
}

/// The session that the variables of an environment describe.
pub open spec fn classified(
    wayland_display: Option<Seq<char>>,
    session_type: Option<Seq<char>>,
    current_desktop: Option<Seq<char>>,
) -> Session {
    if !is_wayland(wayland_display, session_type) {
        Session::X11
    } else if current_desktop matches Some(v) && lists_gnome(v) {
        Session::GnomeWayland
    } else {
        Session::OtherWayland
    }
}

/// Whether the text between `from` and `to`, without the white space around it,
/// is `word`, the case of ASCII letters aside.
fn is_word(v: &[char], from: usize, to: usize, word: &str) -> (r: bool)
    requires
        from <= to <= v@.len(),
    ensures
        r == same_word(text::trimmed(v@.subrange(from as int, to as int)), word@),
{
    let (start, end): (usize, usize) = text::trim_bounds(v, from, to);
    let ghost found = v@.subrange(start as int, end as int);
    let want: Vec<char> = text::lowered_chars_of(word);
    if want.len() != end - start {
        assert(text::lowered(found).len() != want@.len());
        return false;
    }
    for i in 0..want.len()
        invariant
            from <= to <= v@.len(),
            start <= end <= v@.len(),
            want@.len() == end - start,
            want@ == text::lowered(word@),
            found == v@.subrange(start as int, end as int),
            found == text::trimmed(v@.subrange(from as int, to as int)),
            forall|k: int| 0 <= k < i ==> text::lowered(found)[k] == want@[k],
    {
        assert(text::lowered(found)[i as int] == text::ascii_lower(v@[start + i]));
        if text::to_ascii_lower(v[start + i]) != want[i] {
            return false;
        }
    }
    assert(text::lowered(found) =~= want@);
    true
}

/// Whether a colon-separated list of desktops names GNOME.
fn names_gnome(desktops: &str) -> (r: bool)
    ensures
        r == lists_gnome(desktops@),
{
    let v: Vec<char> = text::chars_of(desktops);
    let mut from: usize = 0;
    let mut to: usize = 0;
    while to < v.len()
        invariant
            v@ == desktops@,
            from <= to <= v@.len(),
            from == 0 || v@[from - 1] == ':',
            forall|i: int| from <= i < to ==> v@[i] != ':',
            forall|a: int, b: int| b < from ==> !gnome_at(v@, a, b),
        decreases v@.len() - to,
    {
        if v[to] == ':' {
            if is_word(&v, from, to, "gnome") {
                assert(gnome_at(v@, from as int, to as int));
                return true;
            }
            assert forall|a: int, b: int| b < to + 1 implies !gnome_at(v@, a, b) by {
                if b >= from && is_part(v@, a, b) {
                    lemma_one_part(v@, from as int, to as int, a, b);
                }
            }
            from = to + 1;
        }
        to += 1;
    }
    let r: bool = is_word(&v, from, to, "gnome");
    if r {
        assert(gnome_at(v@, from as int, to as int));
    } else {
        assert forall|a: int, b: int| !gnome_at(v@, a, b) by {
            if b >= from && is_part(v@, a, b) {
                lemma_one_part(v@, from as int, to as int, a, b);
            }
        }
    }
    r
}

/// A part that ends within another is that part.
proof fn lemma_one_part(s: Seq<char>, from: int, to: int, a: int, b: int)
    requires
        is_part(s, from, to),
        is_part(s, a, b),
        from <= b <= to,
    ensures
        a == from,
        b == to,
{
    if b < to {
        assert(s[b] != ':');
    }
    if a < from {
        assert(s[from - 1] != ':');
    }
    if a > from {
        assert(s[a - 1] != ':');
    }
}

/// The session that the variables `WAYLAND_DISPLAY`, `XDG_SESSION_TYPE` and
/// `XDG_CURRENT_DESKTOP` describe. The last is a colon-separated list, e.g.
/// "ubuntu:GNOME".
pub fn classify_session(
    wayland_display: Option<&str>,
    session_type: Option<&str>,
    current_desktop: Option<&str>,
) -> (r: Session)
    ensures
        r == classified(
            var_view(wayland_display),
            var_view(session_type),
            var_view(current_desktop),
        ),
{
    let named: bool = match wayland_display {
        Some(v) => !text::is_blank(v),
        None => false,
    };
    let typed: bool = match session_type {
        Some(v) => {
            let chars: Vec<char> = text::chars_of(v);
            assert(chars@.subrange(0, chars@.len() as int) =~= v@);
            is_word(&chars, 0, chars.len(), "wayland")
        },
        None => false,
    };
    if !named && !typed {
        return Session::X11;
    }
    let gnome: bool = match current_desktop {
        Some(v) => names_gnome(v),
        None => false,
    };
    if gnome {
        Session::GnomeWayland
    } else {
        Session::OtherWayland
    }
}

/// What a session's listener starts with.
#[derive(Debug)]
pub enum Backend {
    /// The key listener.
    Keys,
    /// The Shell-extension backend.
    GnomeShell,
    /// Nothing: the status is reported and no listener runs.
    Unavailable(TriggerStatus),
}

/// The backend of a session.
pub fn backend(session: Session) -> (r: Backend)
    ensures
        match session {
            Session::X11 => r is Keys,
            Session::GnomeWayland => r is GnomeShell,
            Session::OtherWayland => r == Backend::Unavailable(TriggerStatus::UnsupportedSession),
        },
{
    match session {
        Session::X11 => Backend::Keys,
        Session::GnomeWayland => Backend::GnomeShell,
        Session::OtherWayland => Backend::Unavailable(TriggerStatus::UnsupportedSession),
    }
}

/// A list with a single desktop names GNOME exactly when that desktop is GNOME:
/// a name such as "GNOME-Classic" does not count.
pub proof fn law_single_desktop_must_be_gnome(s: Seq<char>)
    requires
        !s.contains(':'),
    ensures
        lists_gnome(s) == same_word(text::trimmed(s), "gnome"@),
{
    let n = s.len() as int;
    assert(s.subrange(0, n) =~= s);
    assert(is_part(s, 0, n)) by {
        assert forall|i: int| 0 <= i < n implies s[i] != ':' by {
            assert(s.contains(s[i]));
        }
    }
    if lists_gnome(s) {
        let (a, b) = choose|a: int, b: int| gnome_at(s, a, b);
        if a != 0 {
            assert(s.contains(s[a - 1]));
        }
        if b != n {
            assert(s.contains(s[b]));
        }
    }
    if same_word(text::trimmed(s), "gnome"@) {
        assert(gnome_at(s, 0, n));
    }
}

/// The parts of a list are parts of it with another list behind.
proof fn lemma_part_in_front(s: Seq<char>, t: Seq<char>, a: int, b: int)
    requires
        0 <= a <= b <= s.len(),
    ensures
        gnome_at(s + seq![':'] + t, a, b) == gnome_at(s, a, b),
{
    let all = s + seq![':'] + t;
    assert(all.subrange(a, b) =~= s.subrange(a, b));
    assert forall|i: int| a <= i < b implies all[i] == s[i] by {}
    assert(is_part(all, a, b) == is_part(s, a, b)) by {
        assert(a > 0 ==> all[a - 1] == s[a - 1]);
        assert(all[b] == if b < s.len() { s[b] } else { ':' });
        assert((forall|i: int| a <= i < b ==> all[i] != ':') == (forall|i: int|
            a <= i < b ==> s[i] != ':'));
    }
}

/// The parts of a list are parts of it with another list in front.
proof fn lemma_part_behind(s: Seq<char>, t: Seq<char>, a: int, b: int)
    requires
        0 <= a <= b <= t.len(),
    ensures
        gnome_at(s + seq![':'] + t, a + s.len() + 1, b + s.len() + 1) == gnome_at(t, a, b),
{
    let all = s + seq![':'] + t;
    let n = s.len() + 1;
    assert(all.subrange(a + n, b + n) =~= t.subrange(a, b));
    assert(is_part(all, a + n, b + n) == is_part(t, a, b)) by {
        assert(all[a + n - 1] == if a > 0 { t[a - 1] } else { ':' });
        assert(b < t.len() ==> all[b + n] == t[b]);
        if is_part(all, a + n, b + n) {
            assert forall|i: int| a <= i < b implies t[i] != ':' by {
                assert(all[i + n] == t[i]);
            }
        }
        if is_part(t, a, b) {
            assert forall|i: int| a + n <= i < b + n implies all[i] != ':' by {
                assert(all[i] == t[i - n]);
            }
        }
    }
}

/// A list of desktops names GNOME exactly when one of two lists that it is made
/// of does: it does not matter what else is listed, nor where.
pub proof fn law_gnome_counts_anywhere_in_the_list(s: Seq<char>, t: Seq<char>)
    ensures
        lists_gnome(s + seq![':'] + t) == (lists_gnome(s) || lists_gnome(t)),
{
    let all = s + seq![':'] + t;
    let n = s.len() as int;
    if lists_gnome(s) {
        let (a, b) = choose|a: int, b: int| gnome_at(s, a, b);
        lemma_part_in_front(s, t, a, b);
    }
    if lists_gnome(t) {
        let (a, b) = choose|a: int, b: int| gnome_at(t, a, b);
        lemma_part_behind(s, t, a, b);
    }
    if lists_gnome(all) {
        let (a, b) = choose|a: int, b: int| gnome_at(all, a, b);
        assert(all[n] == ':');
        if b <= n {
            lemma_part_in_front(s, t, a, b);
        } else {
            assert(a > n);
            lemma_part_behind(s, t, a - n - 1, b - n - 1);
        }
    }
}

/// Without Wayland the session is X11, whatever the desktop.
pub proof fn law_desktop_alone_is_not_wayland(
    wayland_display: Option<Seq<char>>,
    session_type: Option<Seq<char>>,
    current_desktop: Option<Seq<char>>,
)
    ensures
        classified(wayland_display, session_type, current_desktop) is X11 <==> !is_wayland(
            wayland_display,
            session_type,
        ),
        classified(None, None, current_desktop) is X11,
{
}

/// Two words are the same exactly when they are as long and each character is the
/// same as the one at its place, capitals and small letters of ASCII aside.
pub proof fn law_same_word_character_by_character(a: Seq<char>, b: Seq<char>)
    ensures
        same_word(a, b) <==> a.len() == b.len() && forall|i: int|
            0 <= i < a.len() ==> text::ascii_lower(#[trigger] a[i]) == text::ascii_lower(b[i]),
        same_word(a, a),
        same_word(text::lowered(a), a),
{
    let (x, y) = (text::lowered(a), text::lowered(b));
    text::lemma_lowered_twice(a);
    if a.len() == b.len() && forall|i: int|
        0 <= i < a.len() ==> text::ascii_lower(#[trigger] a[i]) == text::ascii_lower(b[i]) {
        assert(x =~= y);
    }
    if x == y {
        assert(x.len() == a.len() && y.len() == b.len());
        assert forall|i: int| 0 <= i < a.len() implies text::ascii_lower(#[trigger] a[i])
            == text::ascii_lower(b[i]) by {
            assert(x[i] == y[i]);
        }
    }
}

/// A display that is named, in one character other than white space, makes a
/// session a Wayland one, and so does the word `wayland` as its type, in whatever
/// case and with white space around it. A blank display and another word do not.
pub proof fn law_wayland_by_display_or_type(
    display: Seq<char>,
    front: Seq<char>,
    word: Seq<char>,
    back: Seq<char>,
    other: Option<Seq<char>>,
)
    requires
        text::all_white(front),
        text::all_white(back),
        word.len() > 0 ==> !text::is_white_space(word[0]) && !text::is_white_space(word.last()),
    ensures
        !text::all_white(display) ==> is_wayland(Some(display), other),
        same_word(word, "wayland"@) ==> is_wayland(other, Some(front + word + back)),
        text::all_white(display) && !same_word(word, "wayland"@) ==> !is_wayland(
            Some(display),
            Some(front + word + back),
        ) && !is_wayland(None, Some(front + word + back)) && !is_wayland(Some(display), None),
        !is_wayland(None, None),
{
    text::law_only_white_space_trims_to_nothing(display);
    text::law_trimming_takes_off_the_white_space_around(front, word, back);
}

/// The session follows from the two questions whether it is on Wayland and whether
/// its desktops name GNOME, and the word `gnome` alone on the list names it, in
/// whatever case and with white space around it.
pub proof fn law_session_follows_from_wayland_and_gnome(
    display: Option<Seq<char>>,
    session_type: Option<Seq<char>>,
    desktops: Seq<char>,
    front: Seq<char>,
    word: Seq<char>,
    back: Seq<char>,
)
    requires
        text::all_white(front),
        text::all_white(back),
        word.len() > 0 ==> !text::is_white_space(word[0]) && !text::is_white_space(word.last()),
        !word.contains(':'),
    ensures
        !is_wayland(display, session_type) ==> classified(display, session_type, Some(desktops))
            is X11,
        is_wayland(display, session_type) && lists_gnome(desktops) ==> classified(
            display,
            session_type,
            Some(desktops),
        ) is GnomeWayland,
        is_wayland(display, session_type) && !lists_gnome(desktops) ==> classified(
            display,
            session_type,
            Some(desktops),
        ) is OtherWayland,
        is_wayland(display, session_type) ==> classified(display, session_type, None)
            is OtherWayland,
        lists_gnome(front + word + back) == same_word(word, "gnome"@),
{
    let all = front + word + back;
    text::law_trimming_takes_off_the_white_space_around(front, word, back);
    assert(!all.contains(':')) by {
        if all.contains(':') {
            let k = choose|k: int| 0 <= k < all.len() && all[k] == ':';
            if k < front.len() {
                assert(text::is_white_space(front[k]));
            } else if k < front.len() + word.len() {
                assert(word[k - front.len()] == ':');
            } else {
                assert(text::is_white_space(back[k - front.len() - word.len()]));
            }
        }
    }
    law_single_desktop_must_be_gnome(all);
}

/// What is stated of a variable is stated of its whole text.
pub proof fn law_variable_is_seen_whole(v: Option<&str>)
    ensures
        v is None <==> var_view(v) is None,
        v matches Some(s) ==> var_view(v) == Some(s@),
{
}

} // verus!
