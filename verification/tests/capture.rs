use copycopy::capture::{
    build_event, foreground_of, found_in_either, has_changed, now_millis, poll_step_count,
    should_skip, ActiveWindow, CaptureRequest, CaptureRun, Foreground,
};
use copycopy::clipboard::{ImageInfo, ReadReply, ReadRequest};
use copycopy::path::{hex, normalize_file_path, percent_decode};
use copycopy::rich::{html_is_meaningfully_rich, rtf_is_meaningfully_rich};
use copycopy::{CaptureEvent, Captured, Config, Duration, RichFormat};

const OWN_PID: u32 = 4242;

#[test]
fn percent_decode_basics() {
    assert_eq!(percent_decode("/Users/x/a%20b.png"), "/Users/x/a b.png");
    assert_eq!(percent_decode("%E3%81%82"), "あ");
    assert_eq!(percent_decode("100%"), "100%");
    assert_eq!(percent_decode("%zz"), "%zz");
}

#[test]
fn percent_decode_edges() {
    assert_eq!(percent_decode(""), "");
    assert_eq!(percent_decode("%2"), "%2");
    assert_eq!(percent_decode("%41"), "A");
    assert_eq!(percent_decode("%4a%4A"), "JJ");
    assert_eq!(percent_decode("%%41"), "%A");
    assert_eq!(percent_decode("%2541"), "%41");
    assert_eq!(percent_decode("あ%20い"), "あ い");
    // Bytes that are not UTF-8 are replaced.
    assert_eq!(percent_decode("a%FFb"), "a\u{fffd}b");
    assert_eq!(percent_decode("%E3%81"), "\u{fffd}");
}

#[test]
fn hex_digits() {
    assert_eq!(hex(b'0'), Some(0));
    assert_eq!(hex(b'9'), Some(9));
    assert_eq!(hex(b'a'), Some(10));
    assert_eq!(hex(b'F'), Some(15));
    assert_eq!(hex(b'g'), None);
    assert_eq!(hex(b'/'), None);
}

#[test]
fn normalize_strips_file_url() {
    assert_eq!(
        normalize_file_path("file:///Users/x/a%20b.png"),
        "/Users/x/a b.png"
    );
    assert_eq!(
        normalize_file_path("C:\\Users\\x\\a.png"),
        "C:\\Users\\x\\a.png"
    );
}

#[test]
fn normalize_strips_the_scheme_once_and_only_in_front() {
    assert_eq!(normalize_file_path("file://file:///x"), "file:///x");
    assert_eq!(normalize_file_path("/a/file:///x"), "/a/file:///x");
    assert_eq!(normalize_file_path("FILE:///x"), "FILE:///x");
    assert_eq!(normalize_file_path("file://"), "");
}

#[test]
fn html_richness() {
    assert!(html_is_meaningfully_rich("<p>hi <b>x</b></p>"));
    assert!(!html_is_meaningfully_rich(
        "<html><body><span style=\"color:#000\">plain</span></body></html>"
    ));
}

#[test]
fn html_tags_make_rich_in_either_case() {
    let names = [
        "b", "strong", "i", "em", "u", "s", "strike", "del", "mark", "sub", "sup", "font", "h1",
        "h2", "h3", "h4", "h5", "h6", "ul", "ol", "li", "listing", "table", "thead", "tr", "td",
        "th", "blockquote", "pre", "code", "img", "hr",
    ];
    for name in names {
        for end in [">", " class=x>", "/>", "\n>", "\t>", "\u{c}>", "\r>"] {
            let html = format!("<span>x</span><{name}{end}");
            assert!(html_is_meaningfully_rich(&html), "{html}");
            assert!(html_is_meaningfully_rich(&html.to_uppercase()), "{html}");
            assert!(html_is_meaningfully_rich(&format!("a <b{html}r")), "{html}");
        }
        // A name of one letter needs something behind it to be a tag.
        let cut = format!("x <{name}");
        assert_eq!(html_is_meaningfully_rich(&cut), name.len() > 1, "{cut}");
        let no_break = format!("<{name}\u{a0}x>");
        assert!(!html_is_meaningfully_rich(&no_break), "{no_break}");
        let longer = format!("<{name}zz>x</{name}zz>");
        assert!(!html_is_meaningfully_rich(&longer), "{longer}");
        let closing = format!("x</{name}>");
        assert!(!html_is_meaningfully_rich(&closing), "{closing}");
    }
    assert!(html_is_meaningfully_rich("<a href=x>y</a>"));
    assert!(html_is_meaningfully_rich("<A\nHREF=x>y</A>"));
    assert!(!html_is_meaningfully_rich("<a\u{a0}href=x>"));
    assert!(!html_is_meaningfully_rich("<br><body><a><a"));
    assert!(!html_is_meaningfully_rich("if a <b"));
    assert!(!html_is_meaningfully_rich("no markup at all: b, strong, h1"));
}

#[test]
fn html_tags_that_only_begin_alike_are_not_rich() {
    for html in [
        "<link rel=\"stylesheet\" href=\"a.css\"><span>plain</span>",
        "<embed src=x>",
        "<track src=x>",
        "<body><summary>x</summary>",
        "<article>x</article>",
    ] {
        assert!(!html_is_meaningfully_rich(html), "{html}");
    }
    assert!(html_is_meaningfully_rich("<embed src=x><em>y</em>"));
}

#[test]
fn rtf_richness() {
    assert!(rtf_is_meaningfully_rich(r"{\rtf1 \b bold\b0 }"));
    assert!(!rtf_is_meaningfully_rich(
        r"{\rtf1\ansi \f0\fs24 \cf0 plain}"
    ));
}

#[test]
fn rtf_words_make_rich_and_their_off_forms_do_not() {
    for word in [r"\b ", r"\i ", r"\ul ", r"\sub ", r"\super "] {
        assert!(rtf_is_meaningfully_rich(&format!("{{{word}x}}")), "{word}");
    }
    for word in [r"\strike", r"\striked", r"\highlight", r"\pict", r"\bullet"] {
        for end in [" x}", r"\fs24 x}", "1 x}", "07 x}", "}", ""] {
            assert!(rtf_is_meaningfully_rich(&format!("{{{word}{end}")), "{word}{end}");
        }
        assert!(!rtf_is_meaningfully_rich(&format!("{{{word}zz x}}")), "{word}");
    }
    for end in ["0 x}", "0}", "0"] {
        for toggle in [r"\strike", r"\striked", r"\highlight"] {
            assert!(!rtf_is_meaningfully_rich(&format!("{{{toggle}{end}")), "{toggle}{end}");
        }
        for word in [r"\pict", r"\bullet"] {
            assert!(rtf_is_meaningfully_rich(&format!("{{{word}{end}")), "{word}{end}");
        }
    }
    assert!(!rtf_is_meaningfully_rich(r"{\rtf1\ansi \strike0 plain}"));
    assert!(!rtf_is_meaningfully_rich(r"{\rtf1\ansi \highlight0 plain}"));
    assert!(!rtf_is_meaningfully_rich(r"{\rtf1\ansi \striked0 plain}"));
    assert!(rtf_is_meaningfully_rich(r"{\strike0 a\strike b}"));
    assert!(!rtf_is_meaningfully_rich(r"{\ulnone\b0\i0 x}"));
    assert!(!rtf_is_meaningfully_rich(r"{\B x}"));
}

#[test]
fn poll_step_count_covers_timeout_and_clamps() {
    let cfg = |timeout_ms, step_ms| Config {
        clipboard_change_timeout: Duration::from_millis(timeout_ms),
        clipboard_poll_step: Duration::from_millis(step_ms),
        ..Default::default()
    };
    assert_eq!(poll_step_count(&cfg(400, 20)), 20); // covers the window
    assert_eq!(poll_step_count(&cfg(10, 20)), 1); // timeout < step => read once
    assert_eq!(poll_step_count(&cfg(0, 20)), 1); // zero timeout => read once
    assert_eq!(poll_step_count(&cfg(400, 0)), 400); // zero step => no divide-by-zero
}

#[test]
fn skip_self_process() {
    let fg = Foreground {
        process_id: OWN_PID,
        ..Default::default()
    };
    assert!(should_skip(&fg, &[], OWN_PID));
}

#[test]
fn denylist_matches_exec_substring_case_insensitively() {
    let fg = Foreground {
        process_id: 1, // not us
        exec_name: "1Password.exe".to_string(),
        ..Default::default()
    };
    assert!(should_skip(&fg, &["1password".to_string()], OWN_PID));
    assert!(!should_skip(&fg, &["keepass".to_string()], OWN_PID));
    assert!(!should_skip(&fg, &[], OWN_PID));
}

#[test]
fn denylist_matches_the_path_and_ignores_empty_entries() {
    let fg = Foreground {
        process_id: 1,
        exec_name: "app".to_string(),
        exec_path: "/opt/KeePassXC/app".to_string(),
        app_name: "secret".to_string(),
        ..Default::default()
    };
    assert!(should_skip(&fg, &["x".repeat(3), "KEEPASS".to_string()], OWN_PID));
    assert!(!should_skip(&fg, &[String::new()], OWN_PID));
    assert!(!should_skip(&fg, &["secret".to_string()], OWN_PID));
}

#[test]
fn denylist_ignores_case_beyond_ascii() {
    let denies = |name: &str, entry: &str| {
        let fg = Foreground {
            process_id: 1,
            exec_name: name.to_string(),
            ..Default::default()
        };
        should_skip(&fg, &[entry.to_string()], OWN_PID)
    };
    assert!(denies("TR\u{c9}SOR.exe", "tr\u{e9}sor"));
    assert!(denies("tr\u{e9}sor.exe", "TR\u{c9}SOR"));
    assert!(!denies("tresor.exe", "tr\u{e9}sor"));
    // The small sigma has two forms; an entry that stands in the name matches.
    assert!(denies("ΟΔΟΣ.exe", "οδος"));
    assert!(denies("ΟΔΟΣ.exe", "οδοσ"));
    assert!(denies("ΑΣ", "Σ"));
    assert!(denies("Straße", "STRASSE"));
    assert!(denies("STRA\u{1e9e}E", "straße"));
    assert!(denies("СЕЙФ", "сейф"));
    // The Kelvin sign is a K.
    assert!(denies("\u{212a}eepass", "keepass"));
}

#[test]
fn an_entry_is_looked_for_in_the_name_and_the_path() {
    assert!(found_in_either(&['a', 'b'], &['x'], &['b']));
    assert!(found_in_either(&['a'], &['x', 'é'], &['é']));
    assert!(!found_in_either(&['a'], &['x'], &['y']));
}

#[test]
fn a_counter_that_cannot_be_read_is_no_change() {
    assert!(has_changed(7, 8));
    assert!(has_changed(7, 6));
    assert!(!has_changed(7, 7));
    assert!(!has_changed(7, 0));
    assert!(!has_changed(0, 7));
    assert!(!has_changed(0, 0));
}

#[test]
fn config_default_values() {
    let c = Config::default();
    assert_eq!(c.double_tap_window, Duration::from_millis(400));
    assert_eq!(c.clipboard_change_timeout, Duration::from_millis(400));
    assert_eq!(c.clipboard_poll_step, Duration::from_millis(20));
    assert_eq!(c.trigger_cooldown, Duration::from_millis(350));
    assert!(c.denylist_exec_substrings.is_empty());
    assert_eq!(c.max_files, 50);
}

#[test]
fn durations() {
    let d = Duration::new(3, 1_250_000_999);
    assert_eq!(d.as_secs(), 4);
    assert_eq!(d.subsec_nanos(), 250_000_999);
    assert_eq!(d.as_millis(), 4250);
    assert_eq!(d.as_nanos(), 4_250_000_999);
    assert_eq!(Duration::from_millis(1999).as_secs(), 1);
    let max = Duration::new(u64::MAX, 999_999_999);
    assert_eq!(max.as_millis(), u64::MAX as u128 * 1000 + 999);
    assert_eq!(max.as_millis_u64(), (u64::MAX as u128 * 1000 + 999) as u64);
}

#[test]
fn now_in_milliseconds() {
    assert_eq!(now_millis(Some(Duration::new(1_700_000_000, 123_456_789))), 1_700_000_000_123);
    assert_eq!(now_millis(None), 0);
}

#[test]
fn foreground_drops_a_blank_url() {
    let window = || ActiveWindow {
        name: "Chrome".into(),
        exec_name: "chrome".into(),
        path: "/opt/chrome".into(),
        title: "Docs".into(),
        process_id: 7,
    };
    let fg = foreground_of(Some(window()), Some("https://x".into()));
    assert_eq!(fg.app_name, "Chrome");
    assert_eq!(fg.exec_name, "chrome");
    assert_eq!(fg.exec_path, "/opt/chrome");
    assert_eq!(fg.window_title, "Docs");
    assert_eq!(fg.process_id, 7);
    assert_eq!(fg.url.as_deref(), Some("https://x"));
    assert!(foreground_of(Some(window()), Some(" \u{a0}\n".into())).url.is_none());
    assert!(foreground_of(Some(window()), None).url.is_none());
    let none = foreground_of(None, Some("https://x".into()));
    assert_eq!(none.process_id, 0);
    assert!(none.app_name.is_empty() && none.url.is_none());
}

#[test]
fn event_carries_the_foreground() {
    let fg = Foreground {
        app_name: "a".into(),
        exec_name: "b".into(),
        exec_path: "c".into(),
        window_title: "d".into(),
        process_id: 5,
        url: Some("e".into()),
    };
    let e = build_event(fg, Captured::Empty, 99);
    assert_eq!(e.timestamp_ms, 99);
    assert_eq!(
        (e.app_name.as_str(), e.exec_name.as_str(), e.exec_path.as_str()),
        ("a", "b", "c")
    );
    assert_eq!((e.window_title.as_str(), e.process_id), ("d", 5));
    assert_eq!(e.url.as_deref(), Some("e"));
    assert!(matches!(e.content, Captured::Empty));
}

/// A clipboard that answers from what it holds and counts what it is asked.
#[derive(Default)]
struct Board {
    closed: bool,
    files: Option<Vec<String>>,
    image: Option<ImageInfo>,
    png: Option<Vec<u8>>,
    html: Option<String>,
    rtf: Option<String>,
    text: Option<String>,
}

fn answer(b: &Board, request: ReadRequest) -> ReadReply {
    match request {
        ReadRequest::Connect => ReadReply::Connected(!b.closed),
        ReadRequest::Files => ReadReply::Files(b.files.clone()),
        ReadRequest::Image => ReadReply::Image(b.image),
        ReadRequest::Png => ReadReply::Png(b.png.clone()),
        ReadRequest::Html => ReadReply::Text(b.html.clone()),
        ReadRequest::Rtf => ReadReply::Text(b.rtf.clone()),
        ReadRequest::Text => ReadReply::Text(b.text.clone()),
    }
}

struct Outcome {
    event: Option<CaptureEvent>,
    polls: usize,
    asked: Vec<ReadRequest>,
}

fn run(config: Config, fg: Foreground, counts: &[u64], board: &Board) -> Outcome {
    let mut run = CaptureRun::new(config, 10, OWN_PID);
    let mut polls = 0;
    let mut asked = Vec::new();
    loop {
        run = match run.request() {
            CaptureRequest::Foreground => run.on_foreground(fg.clone()),
            CaptureRequest::Poll { step } => {
                assert_eq!(step, Duration::from_millis(20));
                let count = counts[polls];
                polls += 1;
                run.on_count(count)
            }
            CaptureRequest::Clipboard(request) => {
                asked.push(request);
                run.on_reply(answer(board, request))
            }
            CaptureRequest::Finish => {
                let event = run.finish(1234);
                return Outcome { event, polls, asked };
            }
        };
    }
}

fn other_app() -> Foreground {
    Foreground {
        process_id: 1,
        exec_name: "editor".into(),
        ..Default::default()
    }
}

fn content(board: &Board) -> Captured {
    run(Config::default(), other_app(), &[11], board)
        .event
        .unwrap()
        .content
}

#[test]
fn capture_reads_at_the_first_change() {
    let board = Board {
        text: Some("hi".into()),
        ..Default::default()
    };
    let out = run(Config::default(), other_app(), &[10, 10, 11], &board);
    assert_eq!(out.polls, 3);
    let event = out.event.unwrap();
    assert_eq!(event.timestamp_ms, 1234);
    assert_eq!(event.exec_name, "editor");
    assert!(matches!(event.content, Captured::Text { text } if text == "hi"));
}

#[test]
fn capture_reads_after_the_timeout_without_a_change() {
    let out = run(Config::default(), other_app(), &[10; 20], &Board::default());
    assert_eq!(out.polls, 20);
    assert!(matches!(out.event.unwrap().content, Captured::Empty));
}

#[test]
fn capture_waits_for_the_timeout_when_the_counter_cannot_be_read() {
    let out = run(Config::default(), other_app(), &[0; 20], &Board::default());
    assert_eq!(out.polls, 20);
    // A read that works again says whether there was a change.
    let out = run(Config::default(), other_app(), &[0, 10, 0, 11], &Board::default());
    assert_eq!(out.polls, 4);
}

#[test]
fn skipped_apps_never_have_their_clipboard_read() {
    let board = Board {
        text: Some("secret".into()),
        ..Default::default()
    };
    let config = || Config {
        denylist_exec_substrings: vec!["EDIT".into()],
        ..Default::default()
    };
    let out = run(config(), other_app(), &[], &board);
    assert!(out.event.is_none());
    assert_eq!(out.polls, 0);
    assert!(out.asked.is_empty());
    let own = Foreground {
        process_id: OWN_PID,
        ..Default::default()
    };
    let out = run(Config::default(), own, &[], &board);
    assert!(out.event.is_none() && out.asked.is_empty());
}

#[test]
fn clipboard_priority() {
    let mut board = Board {
        files: Some(vec!["  ".into(), "file:///a%20b".into(), "/c".into()]),
        image: Some(ImageInfo { empty: false, width: 4, height: 3 }),
        png: Some(vec![1, 2, 3]),
        html: Some("<b>x</b>".into()),
        rtf: Some(r"{\b x}".into()),
        text: Some("x".into()),
        ..Default::default()
    };
    assert!(matches!(content(&board), Captured::Files { paths } if paths == ["/a b", "/c"]));
    board.files = Some(vec![" ".into()]);
    assert!(matches!(
        content(&board),
        Captured::Image { width: 4, height: 3, png } if png == [1, 2, 3]
    ));
    board.png = None;
    assert!(matches!(
        content(&board),
        Captured::Image { width: 4, height: 3, png } if png.is_empty()
    ));
    board.image = Some(ImageInfo { empty: true, width: 4, height: 3 });
    assert!(matches!(
        content(&board),
        Captured::RichText { format: RichFormat::Html, markup, plain }
            if markup == "<b>x</b>" && plain == "x"
    ));
    board.html = Some("<span>x</span>".into());
    assert!(matches!(
        content(&board),
        Captured::RichText { format: RichFormat::Rtf, markup, plain }
            if markup == r"{\b x}" && plain == "x"
    ));
    board.rtf = None;
    assert!(matches!(content(&board), Captured::Text { text } if text == "x"));
    board.text = Some(String::new());
    assert!(matches!(content(&board), Captured::Empty));
    board.closed = true;
    board.text = Some("x".into());
    assert!(matches!(content(&board), Captured::Empty));
}

#[test]
fn rich_text_without_plain_text_has_an_empty_fallback() {
    let board = Board {
        html: Some("<h1>x".into()),
        ..Default::default()
    };
    assert!(matches!(content(&board), Captured::RichText { plain, .. } if plain.is_empty()));
}

#[test]
fn files_are_capped_and_come_alone() {
    let board = Board {
        files: Some(vec!["/a".into(), "".into(), "/b".into(), "/c".into()]),
        text: Some("x".into()),
        ..Default::default()
    };
    let config = |max_files| Config {
        max_files,
        ..Default::default()
    };
    let out = run(config(2), other_app(), &[11], &board);
    assert_eq!(out.asked, [ReadRequest::Connect, ReadRequest::Files]);
    assert!(matches!(
        out.event.unwrap().content,
        Captured::Files { paths } if paths == ["/a", "/b"]
    ));
    // Without room for a path the text is taken.
    let out = run(config(0), other_app(), &[11], &board);
    assert!(matches!(out.event.unwrap().content, Captured::Text { text } if text == "x"));
}

#[test]
fn a_reply_about_something_else_counts_as_none() {
    let run = CaptureRun::new(Config::default(), 10, OWN_PID)
        .on_foreground(other_app())
        .on_count(11)
        .on_reply(ReadReply::Text(Some("x".into())));
    assert!(matches!(run.request(), CaptureRequest::Finish));
    assert!(matches!(run.finish(0).unwrap().content, Captured::Empty));
    // What was not asked for changes nothing.
    let run = CaptureRun::new(Config::default(), 10, OWN_PID)
        .on_count(11)
        .on_reply(ReadReply::Connected(true));
    assert!(matches!(run.request(), CaptureRequest::Foreground));
    assert!(run.finish(0).is_none());
}
