use copycopy::gnome::enabler::{
    append_uuid, remove_uuid, update_extension_list, CommandOutput, EnableRequest, Enabler, ListKey,
};
use copycopy::gnome::gvariant::{format_gvariant_string_array, parse_gvariant_string_array};
use copycopy::gnome::installer::{
    embedded_version, extension_dir, metadata_version, needs_write, InstallRequest, InstallState,
    Installer, EXTENSION_UUID, METADATA_JSON,
};
use copycopy::gnome::listener::{
    bus_status, capture_event, convert, install_status, png_dimensions, probe_status, TakeCapture,
};
use copycopy::gnome::script::EXTENSION_JS;
use copycopy::gnome::session::{backend, classify_session, Backend, Session};
use copycopy::gnome::uri_list::parse_uri_list;
use copycopy::{Capture, Captured, Config, Error, Failure, RichFormat, TriggerStatus};
use std::path::PathBuf;

#[test]
fn classify_x11_without_wayland_display() {
    assert_eq!(
        classify_session(None, Some("x11"), Some("ubuntu:GNOME")),
        Session::X11
    );
    assert_eq!(classify_session(Some(""), None, None), Session::X11);
}

#[test]
fn classify_gnome_wayland() {
    assert_eq!(
        classify_session(Some("wayland-0"), Some("wayland"), Some("ubuntu:GNOME")),
        Session::GnomeWayland
    );
    assert_eq!(
        classify_session(Some("wayland-0"), None, Some("GNOME")),
        Session::GnomeWayland
    );
    // Session type alone is enough when WAYLAND_DISPLAY is not exported.
    assert_eq!(
        classify_session(None, Some("wayland"), Some("gnome")),
        Session::GnomeWayland
    );
}

#[test]
fn classify_other_wayland() {
    assert_eq!(
        classify_session(Some("wayland-0"), Some("wayland"), Some("KDE")),
        Session::OtherWayland
    );
    assert_eq!(
        classify_session(Some("wayland-0"), Some("wayland"), None),
        Session::OtherWayland
    );
    // "GNOME-Classic" is not plain GNOME unless GNOME is also listed.
    assert_eq!(
        classify_session(Some("wayland-0"), None, Some("GNOME-Classic")),
        Session::OtherWayland
    );
    assert_eq!(
        classify_session(Some("wayland-0"), None, Some("GNOME-Classic:GNOME")),
        Session::GnomeWayland
    );
}

#[test]
fn classify_trims_and_ignores_case() {
    assert_eq!(
        classify_session(None, Some(" WayLand\n"), Some("a: Gnome :b")),
        Session::GnomeWayland
    );
    assert_eq!(
        classify_session(Some("w"), None, Some("::GNOME:")),
        Session::GnomeWayland
    );
    assert_eq!(classify_session(Some("w"), None, Some("")), Session::OtherWayland);
    assert_eq!(
        classify_session(Some(" "), Some("waylandx"), Some("GNOME")),
        Session::X11
    );
}

#[test]
fn sessions_have_backends() {
    assert!(matches!(backend(Session::X11), Backend::Keys));
    assert!(matches!(backend(Session::GnomeWayland), Backend::GnomeShell));
    assert!(matches!(
        backend(Session::OtherWayland),
        Backend::Unavailable(TriggerStatus::UnsupportedSession)
    ));
}

#[test]
fn extension_dir_prefers_xdg_data_home() {
    assert_eq!(
        PathBuf::from(extension_dir(Some("/xdg/data"), Some("/home/u")).unwrap()),
        PathBuf::from(format!("/xdg/data/gnome-shell/extensions/{EXTENSION_UUID}"))
    );
    assert_eq!(
        PathBuf::from(extension_dir(None, Some("/home/u")).unwrap()),
        PathBuf::from(format!(
            "/home/u/.local/share/gnome-shell/extensions/{EXTENSION_UUID}"
        ))
    );
    assert_eq!(
        PathBuf::from(extension_dir(Some("  "), Some("/home/u")).unwrap()),
        PathBuf::from(format!(
            "/home/u/.local/share/gnome-shell/extensions/{EXTENSION_UUID}"
        ))
    );
    assert!(extension_dir(None, None).is_none());
}

#[test]
fn extension_dir_joins_like_paths() {
    for base in ["/d", "/d/", "d", "/", " x "] {
        let expected = PathBuf::from(base)
            .join("gnome-shell")
            .join("extensions")
            .join(EXTENSION_UUID);
        assert_eq!(
            extension_dir(Some(base), None).unwrap(),
            expected.to_str().unwrap()
        );
    }
    assert_eq!(
        extension_dir(Some(""), Some("")).unwrap(),
        format!(".local/share/gnome-shell/extensions/{EXTENSION_UUID}")
    );
}

#[test]
fn metadata_version_parses_and_skips_shell_version() {
    assert_eq!(
        metadata_version(r#"{"shell-version": ["45", "46"], "version": 3}"#),
        Some(3)
    );
    assert_eq!(metadata_version(r#"{"version" : 12 }"#), Some(12));
    assert_eq!(metadata_version(r#"{"shell-version": ["45"]}"#), None);
    assert_eq!(metadata_version("not json"), None);
}

#[test]
fn metadata_version_edges() {
    assert_eq!(metadata_version("\"version\":\n\t 007x"), Some(7));
    assert_eq!(
        metadata_version("\"version\":18446744073709551615"),
        Some(u64::MAX)
    );
    assert_eq!(metadata_version("\"version\":18446744073709551616"), None);
    assert_eq!(metadata_version("\"version\":-1"), None);
    assert_eq!(metadata_version("\"version\" 1"), None);
    assert_eq!(metadata_version("\"version\""), None);
    // Only the first key counts.
    assert_eq!(metadata_version("\"version\": 1, \"version\": 2"), Some(1));
    assert_eq!(metadata_version("\"version\": x, \"version\": 2"), None);
}

#[test]
fn a_value_that_reads_like_the_key_is_no_key() {
    assert_eq!(metadata_version(r#"{"name": "version", "version": 3}"#), Some(3));
    assert_eq!(metadata_version(r#"{"name": "version" , "version" : 4}"#), Some(4));
    assert_eq!(metadata_version("\"version\" \"version\": 2"), Some(2));
    assert_eq!(metadata_version(r#"{"name": "version"}"#), None);
}

#[test]
fn embedded_metadata_has_a_version() {
    assert!(embedded_version() >= 1);
}

#[test]
fn the_script_speaks_the_interface_of_the_listener() {
    for part in ["GetVersion", "TakeCapture", "CaptureReady", "'expired'", "'files'", "'rich'"] {
        assert!(EXTENSION_JS.contains(part), "{part}");
    }
}

#[test]
fn embedded_metadata_names_the_extension() {
    assert_eq!(metadata_version(METADATA_JSON), Some(embedded_version()));
    assert!(METADATA_JSON.contains(&format!("\"uuid\": \"{EXTENSION_UUID}\"")));
}

#[test]
fn gvariant_string_array_roundtrip() {
    assert_eq!(
        parse_gvariant_string_array("['a@b', 'c@d']"),
        vec!["a@b", "c@d"]
    );
    assert_eq!(parse_gvariant_string_array("@as []"), Vec::<String>::new());
    assert_eq!(parse_gvariant_string_array("[]"), Vec::<String>::new());
    assert_eq!(parse_gvariant_string_array("[\"x\"]"), vec!["x"]);
    assert_eq!(
        format_gvariant_string_array(&["a".to_string(), "b".to_string()]),
        "['a', 'b']"
    );
    assert_eq!(format_gvariant_string_array(&[]), "[]");
}

#[test]
fn gvariant_edges() {
    assert_eq!(parse_gvariant_string_array(" ['a', \"it's\", 'b"), vec!["a", "it's"]);
    assert_eq!(parse_gvariant_string_array("['', 'あ\"い']"), vec!["", "あ\"い"]);
    let items: Vec<String> = vec!["".into(), "a, b".into(), "\"q\"".into(), "[あ]".into()];
    assert_eq!(
        parse_gvariant_string_array(&format_gvariant_string_array(&items)),
        items
    );
}

#[test]
fn append_uuid_adds_once() {
    assert_eq!(append_uuid(vec![], "a@b"), Some(vec!["a@b".to_string()]));
    assert_eq!(
        append_uuid(vec!["x@y".to_string()], "a@b"),
        Some(vec!["x@y".to_string(), "a@b".to_string()])
    );
    assert_eq!(append_uuid(vec!["a@b".to_string()], "a@b"), None);
}

#[test]
fn remove_uuid_removes_every_occurrence() {
    assert_eq!(remove_uuid(vec![], "a@b"), None);
    assert_eq!(remove_uuid(vec!["x@y".to_string()], "a@b"), None);
    assert_eq!(
        remove_uuid(
            vec!["a@b".to_string(), "x@y".to_string(), "a@b".to_string()],
            "a@b"
        ),
        Some(vec!["x@y".to_string()])
    );
}

#[test]
fn extension_lists_are_updated_once() {
    let enabled = update_extension_list(ListKey::Enabled, "['x@y']\n").unwrap();
    assert_eq!(enabled, format!("['x@y', '{EXTENSION_UUID}']"));
    assert_eq!(update_extension_list(ListKey::Enabled, &enabled), None);
    let stale = format!("['{EXTENSION_UUID}', 'x@y']");
    let disabled = update_extension_list(ListKey::Disabled, &stale).unwrap();
    assert_eq!(disabled, "['x@y']");
    assert_eq!(update_extension_list(ListKey::Disabled, &disabled), None);
    assert_eq!(update_extension_list(ListKey::Disabled, "@as []"), None);
}

fn output(success: bool, stdout: &str, stderr: &str) -> Result<CommandOutput, String> {
    Ok(CommandOutput {
        success,
        stdout: stdout.as_bytes().to_vec(),
        stderr: stderr.as_bytes().to_vec(),
    })
}

fn failure(e: &Enabler) -> String {
    match e.request() {
        EnableRequest::Done(Err(message)) => message,
        other => panic!("expected a failure, got {other:?}"),
    }
}

#[test]
fn a_shell_that_enables_is_enough() {
    let e = Enabler::new();
    assert!(matches!(e.request(), EnableRequest::AskShell));
    let e = e.on_shell(true);
    assert!(matches!(e.request(), EnableRequest::Done(Ok(()))));
}

#[test]
fn enabling_writes_both_lists() {
    let e = Enabler::new().on_shell(false);
    assert!(matches!(e.request(), EnableRequest::Read(ListKey::Enabled)));
    let e = e.on_output(output(true, "@as []\n", ""));
    assert!(matches!(
        e.request(),
        EnableRequest::Write(ListKey::Enabled, text) if text == format!("['{EXTENSION_UUID}']")
    ));
    let e = e.on_output(output(true, "", ""));
    assert!(matches!(e.request(), EnableRequest::Read(ListKey::Disabled)));
    let e = e.on_output(output(true, &format!("['a', '{EXTENSION_UUID}']\n"), ""));
    assert!(matches!(
        e.request(),
        EnableRequest::Write(ListKey::Disabled, text) if text == "['a']"
    ));
    let e = e.on_output(output(true, "", ""));
    assert!(matches!(e.request(), EnableRequest::Done(Ok(()))));
}

#[test]
fn enabling_skips_lists_that_are_as_they_should_be() {
    let e = Enabler::new()
        .on_shell(false)
        .on_output(output(true, &format!("['{EXTENSION_UUID}']"), ""));
    assert!(matches!(e.request(), EnableRequest::Read(ListKey::Disabled)));
    let e = e.on_output(output(true, "[]", ""));
    assert!(matches!(e.request(), EnableRequest::Done(Ok(()))));
}

#[test]
fn enabling_reports_what_failed() {
    let e = Enabler::new().on_shell(false).on_output(Err("no such file".into()));
    assert_eq!(failure(&e), "cannot run gsettings: no such file");
    let e = Enabler::new()
        .on_shell(false)
        .on_output(output(false, "", " No such schema\n"));
    assert_eq!(
        failure(&e),
        "`gsettings get org.gnome.shell enabled-extensions` failed: No such schema"
    );
    let e = Enabler::new()
        .on_shell(false)
        .on_output(output(true, &format!("['{EXTENSION_UUID}']"), ""))
        .on_output(output(true, &format!("['{EXTENSION_UUID}']"), ""))
        .on_output(output(false, "", "read-only"));
    assert_eq!(
        failure(&e),
        "`gsettings set org.gnome.shell disabled-extensions` failed: read-only"
    );
    let e = Enabler::new()
        .on_shell(false)
        .on_output(output(true, "[]", ""))
        .on_output(Err("gone".into()));
    assert_eq!(failure(&e), "cannot run gsettings: gone");
    // A failure is final.
    assert_eq!(failure(&e.on_output(output(true, "[]", ""))), "cannot run gsettings: gone");
}

#[test]
fn needs_write_matrix() {
    assert!(needs_write(None, 1, false)); // fresh install
    assert!(needs_write(None, 1, true)); // metadata missing/corrupt
    assert!(needs_write(Some(1), 2, true)); // upgrade
    assert!(needs_write(Some(1), 1, false)); // extension.js deleted
    assert!(!needs_write(Some(1), 1, true)); // current
    assert!(!needs_write(Some(2), 1, true)); // newer than embedded: keep
}

/// A directory in memory; `None` for a file that is not there.
#[derive(Default)]
struct Dir {
    metadata: Option<String>,
    script: Option<String>,
}

fn install_into(dir: &mut Dir) -> Result<InstallState, String> {
    let mut i = Installer::into_dir("/ext".to_string());
    assert_eq!(i.dir(), "/ext");
    loop {
        i = match i.request() {
            InstallRequest::ReadMetadata => i.on_metadata(dir.metadata.as_deref()),
            InstallRequest::FindScript => i.on_script(dir.script.is_some()),
            InstallRequest::CreateDir => i.on_write(Ok(())),
            InstallRequest::WriteScript { text } => {
                dir.script = Some(text.to_string());
                i.on_write(Ok(()))
            }
            InstallRequest::WriteMetadata { text } => {
                assert!(dir.script.is_some());
                dir.metadata = Some(text.to_string());
                i.on_write(Ok(()))
            }
            InstallRequest::Finish => return i.finish().unwrap(),
        };
    }
}

#[test]
fn install_into_writes_then_reports_up_to_date() {
    let mut dir = Dir::default();
    assert_eq!(install_into(&mut dir), Ok(InstallState::Written));
    assert_eq!(dir.script.as_deref(), Some(EXTENSION_JS));
    assert_eq!(dir.metadata.as_deref(), Some(METADATA_JSON));

    assert_eq!(install_into(&mut dir), Ok(InstallState::UpToDate));
    assert_eq!(dir.script.as_deref(), Some(EXTENSION_JS));
    assert_eq!(dir.metadata.as_deref(), Some(METADATA_JSON));
}

#[test]
fn install_into_upgrades_an_older_version() {
    let mut dir = Dir {
        script: Some("// old".to_string()),
        metadata: Some(r#"{"version": 0}"#.to_string()),
    };
    assert_eq!(install_into(&mut dir), Ok(InstallState::Written));
    assert_eq!(dir.script.as_deref(), Some(EXTENSION_JS));
}

#[test]
fn install_into_repairs_a_missing_extension_js() {
    let mut dir = Dir {
        script: None,
        metadata: Some(METADATA_JSON.to_string()),
    };
    assert_eq!(install_into(&mut dir), Ok(InstallState::Written));
    assert!(dir.script.is_some());
}

#[test]
fn install_into_keeps_a_newer_installed_version() {
    let mut dir = Dir {
        script: Some("// from the future".to_string()),
        metadata: Some(r#"{"version": 999999}"#.to_string()),
    };
    assert_eq!(install_into(&mut dir), Ok(InstallState::UpToDate));
    assert_eq!(dir.script.as_deref(), Some("// from the future"));
}

#[test]
fn install_reports_what_failed() {
    let at_dir = || {
        Installer::into_dir("/ext".to_string())
            .on_metadata(None)
            .on_script(false)
    };
    let outcome = |i: Installer| i.finish().unwrap();
    assert_eq!(
        outcome(at_dir().on_write(Err("denied".into()))),
        Err("cannot create /ext: denied".to_string())
    );
    assert_eq!(
        outcome(at_dir().on_write(Ok(())).on_write(Err("full".into()))),
        Err("cannot write extension.js: full".to_string())
    );
    assert_eq!(
        outcome(at_dir().on_write(Ok(())).on_write(Ok(())).on_write(Err("full".into()))),
        Err("cannot write metadata.json: full".to_string())
    );
    assert!(at_dir().finish().is_none());
}

#[test]
fn install_needs_a_home() {
    match Installer::for_user(None, None) {
        Err(e) => assert_eq!(e, "cannot determine the home directory (HOME is unset)"),
        Ok(_) => panic!("expected an error"),
    }
    match Installer::for_user(Some("/d"), None) {
        Ok(i) => assert_eq!(i.dir(), format!("/d/gnome-shell/extensions/{EXTENSION_UUID}")),
        Err(e) => panic!("{e}"),
    }
}

fn png_with(width: u32, height: u32) -> Vec<u8> {
    let mut png = vec![0x89, b'P', b'N', b'G', 0x0d, 0x0a, 0x1a, 0x0a];
    png.extend_from_slice(&13u32.to_be_bytes()); // IHDR length
    png.extend_from_slice(b"IHDR");
    png.extend_from_slice(&width.to_be_bytes());
    png.extend_from_slice(&height.to_be_bytes());
    png
}

#[test]
fn png_dimensions_from_ihdr() {
    assert_eq!(png_dimensions(&png_with(640, 480)), (640, 480));
    assert_eq!(png_dimensions(b"not a png at all, definitely"), (0, 0));
    assert_eq!(png_dimensions(&[]), (0, 0));
}

#[test]
fn png_dimensions_edges() {
    assert_eq!(
        png_dimensions(&png_with(u32::MAX, 0x0102_0304)),
        (u32::MAX, 0x0102_0304)
    );
    let png = png_with(1, 2);
    assert_eq!(png_dimensions(&png[..23]), (0, 0));
    for i in [0usize, 7, 12, 15] {
        let mut broken = png.clone();
        broken[i] ^= 1;
        assert_eq!(png_dimensions(&broken), (0, 0));
    }
}

#[test]
fn uri_list_is_normalized() {
    let text = "file:///home/u/a%20b.txt\r\nfile:///home/u/c.png\r\n";
    assert_eq!(
        parse_uri_list(text, false, 50),
        vec!["/home/u/a b.txt", "/home/u/c.png"]
    );
}

#[test]
fn uri_list_skips_comments_and_blank_lines() {
    let text = "# comment\n\nfile:///x\n";
    assert_eq!(parse_uri_list(text, false, 50), vec!["/x"]);
}

#[test]
fn gnome_copied_files_strips_the_verb_line() {
    let text = "copy\nfile:///home/u/doc.pdf";
    assert_eq!(parse_uri_list(text, true, 50), vec!["/home/u/doc.pdf"]);
    let cut = "cut\nfile:///y";
    assert_eq!(parse_uri_list(cut, true, 50), vec!["/y"]);
}

#[test]
fn uri_list_respects_max_files() {
    let text = "file:///a\nfile:///b\nfile:///c\n";
    assert_eq!(parse_uri_list(text, false, 2), vec!["/a", "/b"]);
}

#[test]
fn uri_list_edges() {
    let none: Vec<String> = Vec::new();
    assert_eq!(parse_uri_list("", true, 50), none);
    assert_eq!(parse_uri_list("copy", true, 50), none);
    assert_eq!(parse_uri_list("file:///a", false, 0), none);
    assert_eq!(
        parse_uri_list("\n\n  /a \t\r\n #b\n\u{3000}/c\r", false, 50),
        vec!["/a", "/c"]
    );
    // The verb line is dropped even when it is blank.
    assert_eq!(parse_uri_list("\n/a", true, 50), vec!["/a"]);
}

#[test]
fn convert_text() {
    assert!(matches!(
        convert("text", "text/plain;charset=utf-8", b"hi".to_vec(), String::new(), 50),
        Captured::Text { text } if text == "hi"
    ));
    assert!(matches!(
        convert(
            "text",
            "text/plain;charset=utf-8",
            Vec::new(),
            String::new(),
            50
        ),
        Captured::Empty
    ));
}

#[test]
fn convert_replaces_what_is_not_utf8() {
    assert!(matches!(
        convert("text", "", b"a\xffb".to_vec(), String::new(), 50),
        Captured::Text { text } if text == "a\u{fffd}b"
    ));
}

#[test]
fn convert_rich_keeps_meaningful_html() {
    let html = b"<p>hi <b>bold</b></p>".to_vec();
    match convert("rich", "text/html", html, "hi bold".into(), 50) {
        Captured::RichText {
            format,
            markup,
            plain,
        } => {
            assert_eq!(format, RichFormat::Html);
            assert!(markup.contains("<b>"));
            assert_eq!(plain, "hi bold");
        }
        other => panic!("expected RichText, got {other:?}"),
    }
}

#[test]
fn convert_rich_downgrades_styled_plain_to_text() {
    let html = br#"<span style="color:#000">plain</span>"#.to_vec();
    assert!(matches!(
        convert("rich", "text/html", html, "plain".into(), 50),
        Captured::Text { text } if text == "plain"
    ));
}

#[test]
fn convert_rich_without_plain_fallback_is_empty() {
    let html = b"<span>plain</span>".to_vec();
    assert!(matches!(
        convert("rich", "text/html", html, String::new(), 50),
        Captured::Empty
    ));
}

#[test]
fn convert_image_parses_dimensions() {
    let png = png_with(2, 3);
    match convert("image", "image/png", png.clone(), String::new(), 50) {
        Captured::Image {
            width,
            height,
            png: bytes,
        } => {
            assert_eq!((width, height), (2, 3));
            assert_eq!(bytes, png);
        }
        other => panic!("expected Image, got {other:?}"),
    }
}

#[test]
fn convert_files_and_empty_kinds() {
    assert!(matches!(
        convert("files", "text/uri-list", b"file:///a".to_vec(), String::new(), 50),
        Captured::Files { paths } if paths == ["/a"]
    ));
    assert!(matches!(
        convert(
            "files",
            "x-special/gnome-copied-files",
            b"copy\nfile:///a".to_vec(),
            String::new(),
            50
        ),
        Captured::Files { paths } if paths == ["/a"]
    ));
    assert!(matches!(
        convert("empty", "", Vec::new(), String::new(), 50),
        Captured::Empty
    ));
    assert!(matches!(
        convert("unknown-kind", "", b"x".to_vec(), String::new(), 50),
        Captured::Empty
    ));
}

fn reply(kind: &str) -> TakeCapture {
    TakeCapture {
        kind: kind.into(),
        mime: "text/plain".into(),
        data: b"hi".to_vec(),
        plain: String::new(),
        app_name: "Text Editor".into(),
        wm_class: "org.gnome.TextEditor".into(),
        title: "notes".into(),
        pid: 7,
    }
}

fn denying(entry: &str) -> Config {
    Config {
        denylist_exec_substrings: vec![entry.into()],
        ..Default::default()
    }
}

#[test]
fn capture_events_of_the_extension() {
    let e = capture_event(reply("text"), &Config::default(), 8, 55).unwrap();
    assert_eq!(e.timestamp_ms, 55);
    assert_eq!(e.app_name, "Text Editor");
    assert_eq!(e.exec_name, "org.gnome.TextEditor");
    assert_eq!(e.exec_path, "");
    assert_eq!(e.window_title, "notes");
    assert_eq!(e.process_id, 7);
    assert!(e.url.is_none());
    assert!(matches!(e.content, Captured::Text { text } if text == "hi"));
}

#[test]
fn captures_of_the_extension_are_dropped() {
    assert!(capture_event(reply("expired"), &Config::default(), 8, 0).is_none());
    assert!(capture_event(reply("text"), &Config::default(), 7, 0).is_none());
    assert!(capture_event(reply("text"), &denying("GNOME.text"), 8, 0).is_none());
    assert!(capture_event(reply("text"), &denying("text editor"), 8, 0).is_none());
    assert!(capture_event(reply("text"), &denying("notes"), 8, 0).is_some());
    assert!(capture_event(reply("text"), &denying(""), 8, 0).is_some());
}

#[test]
fn probing_the_extension() {
    assert_eq!(
        probe_status(None),
        TriggerStatus::GnomeExtensionAwaitingLogin
    );
    assert_eq!(
        probe_status(Some(0)),
        TriggerStatus::GnomeExtensionOutdated {
            loaded: 0,
            embedded: embedded_version()
        }
    );
    assert_eq!(probe_status(Some(1)), TriggerStatus::Listening);
    assert_eq!(probe_status(Some(u32::MAX)), TriggerStatus::Listening);
}

#[test]
fn a_failed_installation_is_reported() {
    assert_eq!(install_status(&Ok(InstallState::Written)), None);
    assert_eq!(install_status(&Ok(InstallState::UpToDate)), None);
    assert_eq!(
        install_status(&Err("disk full".into())),
        Some(TriggerStatus::Failed {
            message: "failed to install the GNOME Shell extension: disk full".into()
        })
    );
}

#[test]
fn a_failed_bus_listener_is_reported() {
    assert_eq!(bus_status(&Ok(())), None);
    assert_eq!(
        bus_status(&Err("no bus".into())),
        Some(TriggerStatus::Failed {
            message: "GNOME Wayland D-Bus listener failed: no bus".into()
        })
    );
}

#[test]
fn failures_in_words() {
    let message = |failure| match TriggerStatus::failed(failure, "boom") {
        TriggerStatus::Failed { message } => message,
        other => panic!("expected a failure, got {other:?}"),
    };
    assert_eq!(
        message(Failure::Install),
        "failed to install the GNOME Shell extension: boom"
    );
    assert_eq!(message(Failure::Bus), "GNOME Wayland D-Bus listener failed: boom");
    assert_eq!(message(Failure::Keys), "rdev::listen failed: boom");
}

#[test]
fn errors_in_words() {
    let e = Error::ListenerInit("no permission".into());
    assert_eq!(
        e.message(),
        "failed to initialize the key listener: no permission"
    );
    assert!(Capture::started(Ok(())).is_ok());
    assert!(matches!(
        Capture::started(Err(e)),
        Err(Error::ListenerInit(m)) if m == "no permission"
    ));
}
