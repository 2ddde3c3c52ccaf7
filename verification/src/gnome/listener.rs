//! What the extension's captures are turned into.
//!
//! The Shell extension broadcasts only a serial number; the clipboard content
//! itself is fetched with a unicast call so it never rides the bus as a broadcast
//! any process could observe. The calls are left to the caller.

use crate::capture;
use crate::config::Config;
use crate::event;
use crate::event::{CaptureEvent, Captured, Content, RichFormat};
use crate::gnome::installer;
use crate::gnome::installer::InstallState;
use crate::gnome::uri_list;
use crate::rich;
use crate::text;
use crate::{Failure, TriggerStatus};
use vstd::prelude::*;

verus! {

/// The bytes that a PNG begins with.
pub open spec fn png_signature() -> Seq<u8> {
    seq![0x89, 0x50, 0x4e, 0x47, 0x0d, 0x0a, 0x1a, 0x0a]
}

/// The name of the chunk that a PNG begins with.
pub open spec fn ihdr() -> Seq<u8> {
    seq![0x49, 0x48, 0x44, 0x52]
}

/// The bytes begin like a PNG whose size can be read.
pub open spec fn is_png(b: Seq<u8>) -> bool {
    &&& b.len() >= 24
    &&& b.subrange(0, 8) == png_signature()
    &&& b.subrange(12, 16) == ihdr()
}

/// Four bytes from position `i` on as a number, the highest first.
pub open spec fn be_u32(b: Seq<u8>, i: int) -> nat {
    (b[i] * 0x100_0000 + b[i + 1] * 0x1_0000 + b[i + 2] * 0x100 + b[i + 3]) as nat
}

/// Width and height of a PNG; none of anything else.
pub open spec fn png_size(b: Seq<u8>) -> (u32, u32) {
    if is_png(b) {
        (be_u32(b, 16) as u32, be_u32(b, 20) as u32)
    } else {
        (0, 0)
    }
}

/// Four bytes from position `i` on as a number, the highest first.
fn read_be_u32(b: &[u8], i: usize) -> (r: u32)
    requires
        i + 4 <= b@.len(),
    ensures
        r == be_u32(b@, i as int),
{
    b[i] as u32 * 0x100_0000 + b[i + 1] as u32 * 0x1_0000 + b[i + 2] as u32 * 0x100 + b[i
        + 3] as u32
}

/// Width/height from a PNG IHDR header (the IHDR chunk is mandatory and
/// always first). Returns (0, 0) for anything that is not a PNG.
pub fn png_dimensions(png: &[u8]) -> (r: (u32, u32))
    ensures
        r == png_size(png@),
{
    if png.len() >= 24 && png[0] == 0x89 && png[1] == 0x50 && png[2] == 0x4e && png[3] == 0x47
        && png[4] == 0x0d && png[5] == 0x0a && png[6] == 0x1a && png[7] == 0x0a && png[12] == 0x49
        && png[13] == 0x48 && png[14] == 0x44 && png[15] == 0x52 {
        assert(png@.subrange(0, 8) =~= png_signature());
        assert(png@.subrange(12, 16) =~= ihdr());
        (read_be_u32(png, 16), read_be_u32(png, 20))
    } else {
        proof {
            if is_png(png@) {
                let head = png@.subrange(0, 8);
                let name = png@.subrange(12, 16);
                assert(forall|k: int| 0 <= k < 8 ==> head[k] == png@[k]);
                assert(forall|k: int| 0 <= k < 4 ==> name[k] == png@[k + 12]);
                assert(head[0] == 0x89 && head[1] == 0x50 && head[2] == 0x4e && head[3] == 0x47);
                assert(head[4] == 0x0d && head[5] == 0x0a && head[6] == 0x1a && head[7] == 0x0a);
                assert(name[0] == 0x49 && name[1] == 0x48 && name[2] == 0x44 && name[3] == 0x52);
            }
        }
        (0, 0)
    }
}

/// The MIME type of a list of files whose first line is a verb.
pub open spec fn copied_files_mime() -> Seq<char> {
    "x-special/gnome-copied-files"@
}

/// The content of a payload of the extension.
pub open spec fn converted(
    kind: Seq<char>,
    mime: Seq<char>,
    data: Seq<u8>,
    plain: Seq<char>,
    max_files: nat,
) -> Content {
    let text = text::lossy(data);
    if kind == "text"@ {
        if text.len() == 0 {
            Content::Empty
        } else {
            Content::Text(text)
        }
    } else if kind == "rich"@ {
        if text::trimmed(text).len() > 0 && rich::is_rich_html(text) {
            Content::RichText { format: RichFormat::Html, markup: text, plain }
        } else if plain.len() > 0 {
            // A styled wrapper around plain content.
            Content::Text(plain)
        } else {
            Content::Empty
        }
    } else if kind == "image"@ {
        if data.len() == 0 {
            Content::Empty
        } else {
            Content::Image { width: png_size(data).0, height: png_size(data).1, png: data }
        }
    } else if kind == "files"@ {
        let paths = uri_list::uri_paths(text, mime == copied_files_mime(), max_files);
        if paths.len() == 0 {
            Content::Empty
        } else {
            Content::Files(paths)
        }
    } else {
        Content::Empty
    }
}

proof fn lemma_kinds_differ()
    ensures
        "text"@ != "image"@,
        "rich"@ != "image"@,
{
    reveal_strlit("text");
    reveal_strlit("rich");
    reveal_strlit("image");
    assert("text"@[0] == 't');
    assert("rich"@[0] == 'r');
    assert("image"@[0] == 'i');
}

/// Bytes that encode the empty text are none.
proof fn lemma_only_nothing_is_empty_text(b: Seq<u8>)
    ensures
        b.len() == 0 ==> vstd::utf8::valid_utf8(b) && vstd::utf8::decode_utf8(b).len() == 0,
        vstd::utf8::valid_utf8(b) && b.len() > 0 ==> vstd::utf8::decode_utf8(b).len() > 0,
{
}

/// Map an extension payload onto [`Captured`], mirroring the priority and
/// richness semantics of the other platforms' clipboard reader.
pub fn convert(kind: &str, mime: &str, data: Vec<u8>, plain: String, max_files: usize) -> (r:
    Captured)
    ensures
        r@ == converted(kind@, mime@, data@, plain@, max_files as nat),
        kind@ == "text"@ || kind@ == "image"@ ==> (r is Empty <==> data@.len() == 0),
{
    proof {
        lemma_kinds_differ();
    }
    if text::same(kind, "text") {
        let text: String = text::from_utf8_lossy(&data);
        proof {
            lemma_only_nothing_is_empty_text(data@);
        }
        if text.as_str().is_empty() {
            Captured::Empty
        } else {
            Captured::Text { text }
        }
    } else if text::same(kind, "rich") {
        let markup: String = text::from_utf8_lossy(&data);
        if !text::is_blank(markup.as_str()) && rich::html_is_meaningfully_rich(markup.as_str()) {
            Captured::RichText { format: RichFormat::Html, markup, plain }
        } else if !plain.as_str().is_empty() {
            Captured::Text { text: plain }
        } else {
            Captured::Empty
        }
    } else if text::same(kind, "image") {
        if data.len() == 0 {
            Captured::Empty
        } else {
            let (width, height): (u32, u32) = png_dimensions(&data);
            Captured::Image { width, height, png: data }
        }
    } else if text::same(kind, "files") {
        let text: String = text::from_utf8_lossy(&data);
        let paths: Vec<String> = uri_list::parse_uri_list(
            text.as_str(),
            text::same(mime, "x-special/gnome-copied-files"),
            max_files,
        );
        assert(event::texts(paths@).len() == paths@.len());
        if paths.len() == 0 {
            Captured::Empty
        } else {
            Captured::Files { paths }
        }
    } else {
        Captured::Empty
    }
}

/// A capture as the extension hands it over.
#[derive(Debug, Clone)]
pub struct TakeCapture {
    /// What the payload is; `expired` when there is none any more.
    pub kind: String,
    /// The MIME type of the data.
    pub mime: String,
    /// The content.
    pub data: Vec<u8>,
    /// The plain text beside rich content.
    pub plain: String,
    /// The name of the focused window's app.
    pub app_name: String,
    /// The `wm_class` of the focused window.
    pub wm_class: String,
    /// The title of the focused window.
    pub title: String,
    /// The process id of the focused window.
    pub pid: u32,
}

impl TakeCapture {
    /// Nothing is delivered: the capture expired, or its app is this process or
    /// denied by its `wm_class` or its name.
    pub open spec fn dropped(self, denylist: Seq<Seq<char>>, own_pid: u32) -> bool {
        ||| self.kind@ == "expired"@
        ||| self.pid == own_pid
        ||| capture::denied(self.wm_class@, self.app_name@, denylist)
    }
}

/// `e` is the event of a capture that the extension handed over.
pub open spec fn delivers(
    e: CaptureEvent,
    reply: TakeCapture,
    max_files: nat,
    timestamp_ms: u64,
) -> bool {
    &&& e.timestamp_ms == timestamp_ms
    &&& e.app_name == reply.app_name
    &&& e.exec_name == reply.wm_class
    &&& e.exec_path@.len() == 0
    &&& e.window_title == reply.title
    &&& e.url is None
    &&& e.process_id == reply.pid
    &&& e.content@ == converted(reply.kind@, reply.mime@, reply.data@, reply.plain@, max_files)
}

/// The event of a capture that the extension handed over; `None` where it
/// expired (someone raced us to it, or we were too slow) or its app is to be
/// skipped. The denylist is matched against the app name and the `wm_class`; the
/// `wm_class` stands in the event as the executable name, and there is no
/// executable path and no URL.
pub fn capture_event(
    reply: TakeCapture,
    config: &Config,
    own_pid: u32,
    timestamp_ms: u64,
) -> (r: Option<CaptureEvent>)
    ensures
        r is None <==> reply.dropped(event::texts(config.denylist_exec_substrings@), own_pid),
        r matches Some(e) ==> delivers(e, reply, config.max_files as nat, timestamp_ms),
        r matches Some(e) ==> {
            &&& e.timestamp_ms == timestamp_ms
            &&& e.app_name == reply.app_name
            &&& e.exec_name == reply.wm_class
            &&& e.exec_path@.len() == 0
            &&& e.window_title == reply.title
            &&& e.url is None
            &&& e.process_id == reply.pid
            &&& e.content@ == converted(
                reply.kind@,
                reply.mime@,
                reply.data@,
                reply.plain@,
                config.max_files as nat,
            )
            &&& reply.kind@ == "text"@ || reply.kind@ == "image"@ ==> (e.content is Empty
                <==> reply.data@.len() == 0)
        },
{
    if text::same(reply.kind.as_str(), "expired") {
        return None;
    }
    if reply.pid == own_pid || capture::is_denied(
        reply.wm_class.as_str(),
        reply.app_name.as_str(),
        &config.denylist_exec_substrings,
    ) {
        return None;
    }
    let content: Captured = convert(
        reply.kind.as_str(),
        reply.mime.as_str(),
        reply.data,
        reply.plain,
        config.max_files,
    );
    let fg: capture::Foreground = capture::Foreground {
        app_name: reply.app_name,
        exec_name: reply.wm_class,
        exec_path: String::new(),
        window_title: reply.title,
        process_id: reply.pid,
        url: None,
    };
    Some(capture::build_event(fg, content, timestamp_ms))
}

/// The status of a loaded extension of this version, or of one that is not loaded.
pub open spec fn probed(loaded: Option<u32>) -> TriggerStatus {
    match loaded {
        Some(v) => if v < installer::embedded() {
            TriggerStatus::GnomeExtensionOutdated {
                loaded: v as u64,
                embedded: installer::embedded(),
            }
        } else {
            TriggerStatus::Listening
        },
        None => TriggerStatus::GnomeExtensionAwaitingLogin,
    }
}

/// The status once the loaded extension has been asked for its version; `None`
/// where it did not answer. A fresh install (or an upgrade) only takes effect at
/// the next login. An old version keeps capturing.
pub fn probe_status(loaded: Option<u32>) -> (r: TriggerStatus)
    ensures
        r == probed(loaded),
        r == match loaded {
            Some(v) => if v < installer::embedded() {
                TriggerStatus::GnomeExtensionOutdated {
                    loaded: v as u64,
                    embedded: installer::embedded(),
                }
            } else {
                TriggerStatus::Listening
            },
            None => TriggerStatus::GnomeExtensionAwaitingLogin,
        },
        r.active() <==> loaded is Some,
{
    match loaded {
        Some(v) => {
            let embedded: u64 = installer::embedded_version();
            if (v as u64) < embedded {
                TriggerStatus::GnomeExtensionOutdated { loaded: v as u64, embedded }
            } else {
                TriggerStatus::Listening
            }
        },
        None => TriggerStatus::GnomeExtensionAwaitingLogin,
    }
}

/// The status to report once the installation has ended; `None` where the
/// listener goes on.
pub fn install_status(outcome: &Result<InstallState, String>) -> (r: Option<TriggerStatus>)
    ensures
        match outcome {
            Ok(_) => r is None,
            Err(e) => r matches Some(TriggerStatus::Failed { message }) && message@
                == Failure::Install.text() + ": "@ + e@,
        },
        outcome matches Err(e) ==> r is Some && r->0.tells(Failure::Install, e@),
{
    match outcome {
        Ok(_) => None,
        Err(e) => Some(TriggerStatus::failed(Failure::Install, e.as_str())),
    }
}

/// The status to report once listening to the session bus has ended; `None` where
/// it ended without an error.
pub fn bus_status(outcome: &Result<(), String>) -> (r: Option<TriggerStatus>)
    ensures
        match outcome {
            Ok(_) => r is None,
            Err(e) => r matches Some(TriggerStatus::Failed { message }) && message@
                == Failure::Bus.text() + ": "@ + e@,
        },
        outcome matches Err(e) ==> r is Some && r->0.tells(Failure::Bus, e@),
{
    match outcome {
        Ok(_) => None,
        Err(e) => Some(TriggerStatus::failed(Failure::Bus, e.as_str())),
    }
}

/// A number as four bytes, the highest first.
pub open spec fn be_bytes(v: u32) -> Seq<u8> {
    seq![
        (v / 0x100_0000) as u8,
        (v / 0x1_0000 % 0x100) as u8,
        (v / 0x100 % 0x100) as u8,
        (v % 0x100) as u8,
    ]
}

/// Of a PNG, whatever the length that its first chunk states and whatever
/// follows its size, the size is read; of bytes that do not begin like a PNG,
/// none.
pub proof fn law_png_size_is_read(
    length: Seq<u8>,
    width: u32,
    height: u32,
    rest: Seq<u8>,
    other: Seq<u8>,
)
    requires
        length.len() == 4,
        !is_png(other),
    ensures
        png_size(other) == (0u32, 0u32),
        png_size(png_signature() + length + ihdr() + be_bytes(width) + be_bytes(height) + rest) == (
            width,
            height,
        ),
{
    let b = png_signature() + length + ihdr() + be_bytes(width) + be_bytes(height) + rest;
    assert(b.subrange(0, 8) =~= png_signature());
    assert(b.subrange(12, 16) =~= ihdr());
    assert(b.subrange(16, 20) =~= be_bytes(width));
    assert(b.subrange(20, 24) =~= be_bytes(height));
    lemma_be_bytes_read_back(b, 16, width);
    lemma_be_bytes_read_back(b, 20, height);
}

/// Four bytes that a number was written as give the number.
proof fn lemma_be_bytes_read_back(b: Seq<u8>, i: int, v: u32)
    requires
        0 <= i,
        i + 4 <= b.len(),
        b.subrange(i, i + 4) == be_bytes(v),
    ensures
        be_u32(b, i) == v,
{
    let part = b.subrange(i, i + 4);
    assert(part[0] == b[i] && part[1] == b[i + 1] && part[2] == b[i + 2] && part[3] == b[i + 3]);
    lemma_number_of_its_bytes(v);
    assert(b[i] == v / 0x100_0000);
    assert(b[i + 1] == v / 0x1_0000 % 0x100);
    assert(b[i + 2] == v / 0x100 % 0x100);
    assert(b[i + 3] == v % 0x100);
}

proof fn lemma_number_of_its_bytes(v: u32)
    ensures
        v / 0x100_0000 < 0x100,
        v / 0x100_0000 * 0x100_0000 + v / 0x1_0000 % 0x100 * 0x1_0000 + v / 0x100 % 0x100 * 0x100 + v
            % 0x100 == v,
{
    let q = v / 0x100;
    let r = q / 0x100;
    assert(v / 0x1_0000 == r);
    assert(v / 0x100_0000 == r / 0x100);
    assert(v == q * 0x100 + v % 0x100);
    assert(q == r * 0x100 + q % 0x100);
    assert(r == r / 0x100 * 0x100 + r % 0x100);
}

/// Text that is handed over as UTF-8 arrives as it is, unless it is empty.
pub proof fn law_text_arrives(
    mime: Seq<char>,
    text: Seq<char>,
    plain: Seq<char>,
    max_files: nat,
)
    ensures
        converted("text"@, mime, vstd::utf8::encode_utf8(text), plain, max_files) == if text.len()
            == 0 {
            Content::Empty
        } else {
            Content::Text(text)
        },
{
    vstd::utf8::encode_utf8_valid_utf8(text);
    vstd::utf8::encode_utf8_decode_utf8(text);
}

/// Files that are handed over as a list of file URLs arrive as their paths, at
/// most `max_files` of them, under either MIME type.
pub proof fn law_files_arrive(
    mime: Seq<char>,
    files: Seq<Seq<char>>,
    urls: Seq<Seq<char>>,
    verb: Seq<char>,
    plain: Seq<char>,
    max_files: nat,
)
    requires
        files.len() > 0,
        max_files > 0,
        uri_list::are_urls_of(urls, files),
        mime != copied_files_mime(),
        !verb.contains('\n'),
        verb.len() == 0 || verb.last() != '\r',
    ensures
        converted(
            "files"@,
            mime,
            vstd::utf8::encode_utf8(uri_list::url_list(urls)),
            plain,
            max_files,
        ) == Content::Files(crate::list::first_of(files, max_files)),
        converted(
            "files"@,
            copied_files_mime(),
            vstd::utf8::encode_utf8(verb + seq!['\n'] + uri_list::url_list(urls)),
            plain,
            max_files,
        ) == Content::Files(crate::list::first_of(files, max_files)),
{
    reveal_strlit("text");
    reveal_strlit("rich");
    reveal_strlit("image");
    reveal_strlit("files");
    assert("files"@[0] == 'f');
    assert("text"@[0] == 't');
    assert("rich"@[0] == 'r');
    assert("image"@[0] == 'i');
    let plain_list = uri_list::url_list(urls);
    let verb_list = verb + seq!['\n'] + plain_list;
    vstd::utf8::encode_utf8_valid_utf8(plain_list);
    vstd::utf8::encode_utf8_decode_utf8(plain_list);
    vstd::utf8::encode_utf8_valid_utf8(verb_list);
    vstd::utf8::encode_utf8_decode_utf8(verb_list);
    uri_list::law_url_list_reads_back(files, urls, verb, max_files);
}

/// What a payload becomes is never an empty text, an empty image or an empty
/// list of paths, keeps at most `max_files` paths, and is rich only where the
/// markup is.
pub proof fn law_converted_content_is_worth_delivering(
    kind: Seq<char>,
    mime: Seq<char>,
    data: Seq<u8>,
    plain: Seq<char>,
    max_files: nat,
)
    ensures
        match converted(kind, mime, data, plain, max_files) {
            Content::Text(text) => text.len() > 0,
            Content::Image { width, height, png } => png == data && png.len() > 0,
            Content::RichText { format, markup, plain } => format is Html && rich::is_rich_html(
                markup,
            ),
            Content::Files(paths) => 0 < paths.len() <= max_files,
            Content::Empty => true,
        },
{
    uri_list::law_uri_paths_are_capped(text::lossy(data), mime == copied_files_mime(), max_files);
}

proof fn lemma_all_kinds_differ()
    ensures
        "text"@ != "rich"@,
        "text"@ != "image"@,
        "text"@ != "files"@,
        "rich"@ != "image"@,
        "rich"@ != "files"@,
        "image"@ != "files"@,
{
    reveal_strlit("text");
    reveal_strlit("rich");
    reveal_strlit("image");
    reveal_strlit("files");
    assert("text"@[0] == 't');
    assert("rich"@[0] == 'r');
    assert("image"@[0] == 'i');
    assert("files"@[0] == 'f');
}

/// A text payload arrives as what its bytes read as, all of it, and as nothing only
/// where that is empty; MIME type, plain text and cap do not matter.
pub proof fn law_text_payload_arrives_whole(
    mime: Seq<char>,
    data: Seq<u8>,
    plain: Seq<char>,
    max_files: nat,
)
    ensures
        text::lossy(data).len() > 0 ==> converted("text"@, mime, data, plain, max_files)
            == Content::Text(text::lossy(data)),
        text::lossy(data).len() == 0 ==> converted("text"@, mime, data, plain, max_files)
            == Content::Empty,
{
}

/// A rich payload arrives whole with its whole plain text where its markup is rich,
/// whatever the plain text; else the plain text arrives whole, and nothing without
/// one.
pub proof fn law_rich_payload_arrives_whole(
    mime: Seq<char>,
    data: Seq<u8>,
    plain: Seq<char>,
    max_files: nat,
)
    ensures
        rich::is_rich_html(text::lossy(data)) ==> converted("rich"@, mime, data, plain, max_files)
            == (Content::RichText { format: RichFormat::Html, markup: text::lossy(data), plain }),
        !rich::is_rich_html(text::lossy(data)) && plain.len() > 0 ==> converted(
            "rich"@,
            mime,
            data,
            plain,
            max_files,
        ) == Content::Text(plain),
        !rich::is_rich_html(text::lossy(data)) && plain.len() == 0 ==> converted(
            "rich"@,
            mime,
            data,
            plain,
            max_files,
        ) == Content::Empty,
{
    lemma_all_kinds_differ();
    let markup = text::lossy(data);
    if rich::is_rich_html(markup) {
        rich::law_plain_text_is_not_rich(markup);
        let k = choose|k: int| 0 <= k < markup.len() && markup[k] == '<';
        assert(!text::is_white_space(markup[k]));
        text::law_only_white_space_trims_to_nothing(markup);
    }
}

/// An image payload arrives byte for byte, with the size that its header states and
/// none where it is no PNG, and as nothing only without data.
pub proof fn law_image_payload_arrives_whole(
    mime: Seq<char>,
    data: Seq<u8>,
    plain: Seq<char>,
    max_files: nat,
)
    ensures
        data.len() > 0 ==> (converted("image"@, mime, data, plain, max_files) matches
            Content::Image { width, height, png } && png == data && (width, height) == png_size(
            data,
        )),
        data.len() == 0 ==> converted("image"@, mime, data, plain, max_files) == Content::Empty,
{
    lemma_all_kinds_differ();
}

/// A payload of files arrives as the paths of the list of URIs that its bytes read
/// as, behind the verb under the one MIME type and from the first line on under
/// every other, and as nothing where there are none. Every other kind of payload
/// arrives as nothing.
pub proof fn law_files_payload_arrives_as_its_paths(
    kind: Seq<char>,
    mime: Seq<char>,
    data: Seq<u8>,
    plain: Seq<char>,
    max_files: nat,
)
    ensures
        ({
            let verb = mime == "x-special/gnome-copied-files"@;
            let paths = uri_list::uri_paths(text::lossy(data), verb, max_files);
            &&& paths.len() > 0 ==> converted("files"@, mime, data, plain, max_files)
                == Content::Files(paths)
            &&& paths.len() == 0 ==> converted("files"@, mime, data, plain, max_files)
                == Content::Empty
        }),
        kind != "text"@ && kind != "rich"@ && kind != "image"@ && kind != "files"@ ==> converted(
            kind,
            mime,
            data,
            plain,
            max_files,
        ) == Content::Empty,
{
    lemma_all_kinds_differ();
}

/// Bytes that are too few, or that do not hold the signature of a PNG at their
/// front and the name of its first chunk at its place, have no size.
pub proof fn law_no_png_no_size(b: Seq<u8>)
    ensures
        b.len() < 24 ==> png_size(b) == (0u32, 0u32),
        b.len() >= 24 && !(b[0] == 0x89 && b[1] == 0x50 && b[2] == 0x4e && b[3] == 0x47 && b[4]
            == 0x0d && b[5] == 0x0a && b[6] == 0x1a && b[7] == 0x0a && b[12] == 0x49 && b[13] == 0x48
            && b[14] == 0x44 && b[15] == 0x52) ==> png_size(b) == (0u32, 0u32),
{
    if is_png(b) {
        let head = b.subrange(0, 8);
        let name = b.subrange(12, 16);
        assert(head[0] == 0x89 && head[1] == 0x50 && head[2] == 0x4e && head[3] == 0x47);
        assert(head[4] == 0x0d && head[5] == 0x0a && head[6] == 0x1a && head[7] == 0x0a);
        assert(name[0] == 0x49 && name[1] == 0x48 && name[2] == 0x44 && name[3] == 0x52);
    }
}

/// A capture is dropped exactly when it expired, comes from this process, or its
/// app is denied by its `wm_class` or its name; its title, its content and
/// everything else do not matter.
pub proof fn law_capture_is_dropped_exactly(
    reply: TakeCapture,
    other: TakeCapture,
    denylist: Seq<Seq<char>>,
    own_pid: u32,
)
    ensures
        reply.kind@ == "expired"@ ==> reply.dropped(denylist, own_pid),
        reply.pid == own_pid ==> reply.dropped(denylist, own_pid),
        capture::denied(reply.wm_class@, reply.app_name@, denylist) ==> reply.dropped(
            denylist,
            own_pid,
        ),
        reply.kind@ != "expired"@ && reply.pid != own_pid && !capture::denied(
            reply.wm_class@,
            reply.app_name@,
            denylist,
        ) ==> !reply.dropped(denylist, own_pid),
        reply.kind@ == other.kind@ && reply.pid == other.pid && reply.wm_class@ == other.wm_class@
            && reply.app_name@ == other.app_name@ ==> reply.dropped(denylist, own_pid)
            == other.dropped(denylist, own_pid),
{
}

/// An event holds all that the extension handed over, each under its own name, and
/// the whole content that its payload becomes.
pub proof fn law_event_holds_what_was_handed_over(
    e: CaptureEvent,
    reply: TakeCapture,
    max_files: nat,
    timestamp_ms: u64,
)
    requires
        delivers(e, reply, max_files, timestamp_ms),
    ensures
        e.timestamp_ms == timestamp_ms,
        e.app_name@ == reply.app_name@,
        e.exec_name@ == reply.wm_class@,
        e.exec_path@.len() == 0,
        e.window_title@ == reply.title@,
        e.url is None,
        e.process_id == reply.pid,
        e.content@ == converted(reply.kind@, reply.mime@, reply.data@, reply.plain@, max_files),
{
}

/// An extension that answers is listening, and is outdated exactly when its version
/// is lower than the embedded one, which are then both reported; one that does not
/// answer waits for a login. A version at or beyond the embedded one is current.
pub proof fn law_probe_tells_old_from_current(loaded: u32)
    ensures
        loaded < installer::embedded() ==> probed(Some(loaded))
            == (TriggerStatus::GnomeExtensionOutdated {
            loaded: loaded as u64,
            embedded: installer::embedded(),
        }),
        loaded >= installer::embedded() ==> probed(Some(loaded)) == TriggerStatus::Listening,
        probed(None) == TriggerStatus::GnomeExtensionAwaitingLogin,
{
}

} // verus!
