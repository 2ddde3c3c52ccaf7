//! The payload of a capture.

use vstd::prelude::*;

verus! {

/// Rich-text markup flavor.
#[derive(Debug, Clone, PartialEq, Eq, Structural)]
pub enum RichFormat {
    /// HTML markup.
    Html,
    /// Rich Text Format (RTF) markup.
    Rtf,
}

/// The clipboard content captured on a trigger.
///
/// - [`Captured::Image`] carries PNG-encoded bytes.
/// - [`Captured::Files`] carries normalized filesystem paths. Audio and video
///   are not on the clipboard as media; they arrive here as file references.
#[derive(Debug, Clone)]
pub enum Captured {
    /// Plain UTF-8 text.
    Text {
        /// The copied text.
        text: String,
    },
    /// A bitmap image, PNG-encoded.
    Image {
        /// Image width in pixels.
        width: u32,
        /// Image height in pixels.
        height: u32,
        /// PNG-encoded image bytes.
        png: Vec<u8>,
    },
    /// Formatted text carrying meaningful styling.
    RichText {
        /// Which markup language `markup` is written in.
        format: RichFormat,
        /// The rich markup (HTML or RTF).
        markup: String,
        /// The plain-text fallback, when the clipboard also offered one.
        plain: String,
    },
    /// One or more copied file references.
    Files {
        /// Normalized filesystem paths.
        paths: Vec<String>,
    },
    /// The clipboard was empty or could not be read.
    Empty,
}

/// What a [`Captured`] holds, over sequences of characters and bytes.
#[verifier::ext_equal]
pub ghost enum Content {
    Text(Seq<char>),
    Image { width: u32, height: u32, png: Seq<u8> },
    RichText { format: RichFormat, markup: Seq<char>, plain: Seq<char> },
    Files(Seq<Seq<char>>),
    Empty,
}

/// The texts of a sequence of strings.
pub open spec fn texts(v: Seq<String>) -> Seq<Seq<char>> {
    v.map_values(|s: String| s@)
}

impl View for Captured {
    type V = Content;

    open spec fn view(&self) -> Content {
        match *self {
            Captured::Text { text } => Content::Text(text@),
            Captured::Image { width, height, png } => Content::Image { width, height, png: png@ },
            Captured::RichText { format, markup, plain } => Content::RichText {
                format,
                markup: markup@,
                plain: plain@,
            },
            Captured::Files { paths } => Content::Files(texts(paths@)),
            Captured::Empty => Content::Empty,
        }
    }
}

/// One capture: the foreground app context plus the clipboard [`Captured`] content.
#[derive(Debug, Clone)]
pub struct CaptureEvent {
    /// Unix epoch milliseconds when the event was built.
    pub timestamp_ms: u64,
    /// Human-readable application name (may be empty if unavailable).
    pub app_name: String,
    /// Executable file name.
    pub exec_name: String,
    /// Full executable path.
    pub exec_path: String,
    /// Foreground window title (empty if unavailable / lacking permission).
    pub window_title: String,
    /// Browser URL when the foreground app is a supported chromium browser.
    pub url: Option<String>,
    /// Foreground process id.
    pub process_id: u32,
    /// The captured clipboard content.
    pub content: Captured,
}

/// The texts of a sequence of strings are those of the strings, each at its place.
pub proof fn law_texts_are_those_of_the_strings(v: Seq<String>)
    ensures
        texts(v).len() == v.len(),
        forall|i: int| 0 <= i < v.len() ==> #[trigger] texts(v)[i] == v[i]@,
{
}

/// What is stated of a captured content is stated of all that it holds: the whole
/// text, every byte of the image, the whole markup and its fallback, every path.
pub proof fn law_content_is_all_that_was_captured(c: Captured)
    ensures
        c matches Captured::Text { text } ==> c@ == Content::Text(text@),
        c matches Captured::Image { width, height, png } ==> (c@ matches Content::Image {
            width: w,
            height: h,
            png: p,
        } && w == width && h == height && p == png@),
        c matches Captured::RichText { format, markup, plain } ==> (c@ matches Content::RichText {
            format: f,
            markup: m,
            plain: t,
        } && f == format && m == markup@ && t == plain@),
        c matches Captured::Files { paths } ==> (c@ matches Content::Files(p) && p.len()
            == paths@.len() && forall|i: int| 0 <= i < p.len() ==> #[trigger] p[i] == paths@[i]@),
        c is Empty <==> c@ is Empty,
{
}

} // verus!
