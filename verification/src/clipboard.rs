//! One read of the clipboard, as the requests that it takes and what is made of
//! the replies. Priority: files > image > rich text > plain text.

use crate::event;
use crate::event::{Captured, Content, RichFormat};
use crate::path;
use crate::rich;
use crate::text;
use vstd::prelude::*;

verus! {

/// An image on the clipboard, before it is encoded.
#[derive(Debug, Clone, Copy, PartialEq, Eq, Structural)]
pub struct ImageInfo {
    /// Whether the image holds no data.
    pub empty: bool,
    /// Width in pixels.
    pub width: u32,
    /// Height in pixels.
    pub height: u32,
}

/// What a read of the clipboard asks for next.
#[derive(Debug, Clone, Copy, PartialEq, Eq, Structural)]
pub enum ReadRequest {
    /// Open the clipboard.
    Connect,
    /// The file references.
    Files,
    /// The image.
    Image,
    /// The image just read, encoded as PNG.
    Png,
    /// The HTML.
    Html,
    /// The rich text (RTF).
    Rtf,
    /// The plain text.
    Text,
}

/// The reply to a [`ReadRequest`]. `None` stands for a read that failed.
#[derive(Debug, Clone)]
pub enum ReadReply {
    /// Whether the clipboard could be opened.
    Connected(bool),
    /// The file references.
    Files(Option<Vec<String>>),
    /// The image.
    Image(Option<ImageInfo>),
    /// The encoded image.
    Png(Option<Vec<u8>>),
    /// HTML, rich text or plain text, as asked.
    Text(Option<String>),
}

/// What a [`ReadReply`] holds, over sequences of characters and bytes.
pub ghost enum Answer {
    Connected(bool),
    Files(Option<Seq<Seq<char>>>),
    Image(Option<ImageInfo>),
    Png(Option<Seq<u8>>),
    Text(Option<Seq<char>>),
}

impl View for ReadReply {
    type V = Answer;

    open spec fn view(&self) -> Answer {
        match *self {
            ReadReply::Connected(ok) => Answer::Connected(ok),
            ReadReply::Files(Some(files)) => Answer::Files(Some(event::texts(files@))),
            ReadReply::Files(None) => Answer::Files(None),
            ReadReply::Image(image) => Answer::Image(image),
            ReadReply::Png(Some(png)) => Answer::Png(Some(png@)),
            ReadReply::Png(None) => Answer::Png(None),
            ReadReply::Text(Some(text)) => Answer::Text(Some(text@)),
            ReadReply::Text(None) => Answer::Text(None),
        }
    }
}

impl Answer {
    /// The clipboard could be opened.
    pub open spec fn connected(self) -> bool {
        self == Answer::Connected(true)
    }

    /// The file references; none where the reply is about something else.
    pub open spec fn files(self) -> Option<Seq<Seq<char>>> {
        match self {
            Answer::Files(files) => files,
            _ => None,
        }
    }

    /// The image; none where the reply is about something else.
    pub open spec fn image(self) -> Option<ImageInfo> {
        match self {
            Answer::Image(image) => image,
            _ => None,
        }
    }

    /// The encoded image; none where the reply is about something else.
    pub open spec fn png(self) -> Option<Seq<u8>> {
        match self {
            Answer::Png(png) => png,
            _ => None,
        }
    }

    /// The text; none where the reply is about something else.
    pub open spec fn text(self) -> Option<Seq<char>> {
        match self {
            Answer::Text(text) => text,
            _ => None,
        }
    }
}

/// How far a read of the clipboard has come.
#[verifier::ext_equal]
pub ghost enum Reading {
    Connect,
    Files,
    Image,
    Png { width: u32, height: u32 },
    Html,
    HtmlPlain { markup: Seq<char> },
    Rtf,
    RtfPlain { markup: Seq<char> },
    Text,
    Done(Content),
}

/// A value, or the empty sequence for none.
pub open spec fn or_empty<T>(s: Option<Seq<T>>) -> Seq<T> {
    match s {
        Some(s) => s,
        None => seq![],
    }
}

/// HTML worth keeping: not blank, and rich.
pub open spec fn keeps_html(html: Option<Seq<char>>) -> bool {
    html matches Some(h) && text::trimmed(h).len() > 0 && rich::is_rich_html(h)
}

/// RTF worth keeping: not blank, and rich.
pub open spec fn keeps_rtf(rtf: Option<Seq<char>>) -> bool {
    rtf matches Some(r) && text::trimmed(r).len() > 0 && rich::is_rich_rtf(r)
}

impl Reading {
    /// What is asked for next; nothing once the content is known.
    pub open spec fn request(self) -> Option<ReadRequest> {
        match self {
            Reading::Connect => Some(ReadRequest::Connect),
            Reading::Files => Some(ReadRequest::Files),
            Reading::Image => Some(ReadRequest::Image),
            Reading::Png { .. } => Some(ReadRequest::Png),
            Reading::Html => Some(ReadRequest::Html),
            Reading::HtmlPlain { .. } => Some(ReadRequest::Text),
            Reading::Rtf => Some(ReadRequest::Rtf),
            Reading::RtfPlain { .. } => Some(ReadRequest::Text),
            Reading::Text => Some(ReadRequest::Text),
            Reading::Done(_) => None,
        }
    }

    /// How far the read has come after a reply. At most `max_files` paths are kept.
    pub open spec fn after(self, max_files: nat, answer: Answer) -> Reading {
        match self {
            Reading::Connect => if answer.connected() {
                Reading::Files
            } else {
                Reading::Done(Content::Empty)
            },
            Reading::Files => match answer.files() {
                Some(files) if path::kept_paths(files, max_files).len() > 0 => Reading::Done(
                    Content::Files(path::kept_paths(files, max_files)),
                ),
                _ => Reading::Image,
            },
            Reading::Image => match answer.image() {
                Some(image) if !image.empty => Reading::Png {
                    width: image.width,
                    height: image.height,
                },
                _ => Reading::Html,
            },
            Reading::Png { width, height } => Reading::Done(
                Content::Image { width, height, png: or_empty(answer.png()) },
            ),
            Reading::Html => if keeps_html(answer.text()) {
                Reading::HtmlPlain { markup: answer.text()->0 }
            } else {
                Reading::Rtf
            },
            Reading::HtmlPlain { markup } => Reading::Done(
                Content::RichText {
                    format: RichFormat::Html,
                    markup,
                    plain: or_empty(answer.text()),
                },
            ),
            Reading::Rtf => if keeps_rtf(answer.text()) {
                Reading::RtfPlain { markup: answer.text()->0 }
            } else {
                Reading::Text
            },
            Reading::RtfPlain { markup } => Reading::Done(
                Content::RichText {
                    format: RichFormat::Rtf,
                    markup,
                    plain: or_empty(answer.text()),
                },
            ),
            Reading::Text => match answer.text() {
                Some(text) if text.len() > 0 => Reading::Done(Content::Text(text)),
                _ => Reading::Done(Content::Empty),
            },
            Reading::Done(content) => self,
        }
    }
}

enum Stage {
    Connect,
    Files,
    Image,
    Png { width: u32, height: u32 },
    Html,
    HtmlPlain { markup: String },
    Rtf,
    RtfPlain { markup: String },
    Text,
    Done(Captured),
}

/// One read of the clipboard.
pub struct ClipboardRead {
    max_files: usize,
    stage: Stage,
}

impl View for ClipboardRead {
    type V = Reading;

    closed spec fn view(&self) -> Reading {
        match self.stage {
            Stage::Connect => Reading::Connect,
            Stage::Files => Reading::Files,
            Stage::Image => Reading::Image,
            Stage::Png { width, height } => Reading::Png { width, height },
            Stage::Html => Reading::Html,
            Stage::HtmlPlain { markup } => Reading::HtmlPlain { markup: markup@ },
            Stage::Rtf => Reading::Rtf,
            Stage::RtfPlain { markup } => Reading::RtfPlain { markup: markup@ },
            Stage::Text => Reading::Text,
            Stage::Done(content) => Reading::Done(content@),
        }
    }
}

impl ClipboardRead {
    /// The most paths that this read keeps.
    pub closed spec fn max_files(self) -> nat {
        self.max_files as nat
    }

    /// A read that has asked for nothing yet.
    pub fn new(max_files: usize) -> (r: ClipboardRead)
        ensures
            r@ == Reading::Connect,
            r.max_files() == max_files,
    {
        ClipboardRead { max_files, stage: Stage::Connect }
    }

    /// What to ask the clipboard for next; `None` once the content is known.
    pub fn request(&self) -> (r: Option<ReadRequest>)
        ensures
            r == self@.request(),
    {
        match &self.stage {
            Stage::Connect => Some(ReadRequest::Connect),
            Stage::Files => Some(ReadRequest::Files),
            Stage::Image => Some(ReadRequest::Image),
            Stage::Png { .. } => Some(ReadRequest::Png),
            Stage::Html => Some(ReadRequest::Html),
            Stage::HtmlPlain { .. } => Some(ReadRequest::Text),
            Stage::Rtf => Some(ReadRequest::Rtf),
            Stage::RtfPlain { .. } => Some(ReadRequest::Text),
            Stage::Text => Some(ReadRequest::Text),
            Stage::Done(_) => None,
        }
    }

    /// Takes the reply to what was asked for. A reply about something else
    /// counts as a read that failed.
    pub fn on_reply(self, reply: ReadReply) -> (r: ClipboardRead)
        ensures
            r@ == self@.after(self.max_files(), reply@),
            r.max_files() == self.max_files(),
    {
        let max_files: usize = self.max_files;
        let stage: Stage = match self.stage {
            Stage::Connect => {
                if let ReadReply::Connected(true) = reply {
                    Stage::Files
                } else {
                    Stage::Done(Captured::Empty)
                }
            },
            Stage::Files => {
                if let ReadReply::Files(Some(files)) = reply {
                    let paths: Vec<String> = path::keep_paths(&files, max_files);
                    assert(event::texts(paths@).len() == paths@.len());
                    if paths.len() > 0 {
                        Stage::Done(Captured::Files { paths })
                    } else {
                        Stage::Image
                    }
                } else {
                    Stage::Image
                }
            },
            Stage::Image => {
                if let ReadReply::Image(Some(image)) = reply {
                    if image.empty {
                        Stage::Html
                    } else {
                        Stage::Png { width: image.width, height: image.height }
                    }
                } else {
                    Stage::Html
                }
            },
            Stage::Png { width, height } => {
                let png: Vec<u8> = if let ReadReply::Png(Some(png)) = reply {
                    png
                } else {
                    Vec::new()
                };
                Stage::Done(Captured::Image { width, height, png })
            },
            Stage::Html => {
                match text_of(reply) {
                    Some(html) => {
                        if !text::is_blank(html.as_str()) && rich::html_is_meaningfully_rich(
                            html.as_str(),
                        ) {
                            Stage::HtmlPlain { markup: html }
                        } else {
                            Stage::Rtf
                        }
                    },
                    None => Stage::Rtf,
                }
            },
            Stage::HtmlPlain { markup } => {
                let plain: String = text_or_empty(reply);
                Stage::Done(Captured::RichText { format: RichFormat::Html, markup, plain })
            },
            Stage::Rtf => {
                match text_of(reply) {
                    Some(rtf) => {
                        if !text::is_blank(rtf.as_str()) && rich::rtf_is_meaningfully_rich(
                            rtf.as_str(),
                        ) {
                            Stage::RtfPlain { markup: rtf }
                        } else {
                            Stage::Text
                        }
                    },
                    None => Stage::Text,
                }
            },
            Stage::RtfPlain { markup } => {
                let plain: String = text_or_empty(reply);
                Stage::Done(Captured::RichText { format: RichFormat::Rtf, markup, plain })
            },
            Stage::Text => {
                match text_of(reply) {
                    Some(text) => {
                        if text.as_str().is_empty() {
                            Stage::Done(Captured::Empty)
                        } else {
                            Stage::Done(Captured::Text { text })
                        }
                    },
                    None => Stage::Done(Captured::Empty),
                }
            },
            Stage::Done(content) => Stage::Done(content),
        };
        ClipboardRead { max_files, stage }
    }

    /// The content, once it is known.
    pub fn content(self) -> (r: Option<Captured>)
        ensures
            match self@ {
                Reading::Done(content) => r matches Some(c) && c@ == content,
                _ => r is None,
            },
    {
        match self.stage {
            Stage::Done(content) => Some(content),
            _ => None,
        }
    }
}

/// The text of a reply; `None` where the reply is about something else.
fn text_of(reply: ReadReply) -> (r: Option<String>)
    ensures
        match reply@.text() {
            Some(t) => r matches Some(s) && s@ == t,
            None => r is None,
        },
{
    match reply {
        ReadReply::Text(text) => text,
        _ => None,
    }
}

/// The text of a reply, empty where there is none.
fn text_or_empty(reply: ReadReply) -> (r: String)
    ensures
        r@ == or_empty(reply@.text()),
{
    match text_of(reply) {
        Some(text) => text,
        None => String::new(),
    }
}

/// Everything that a clipboard has to offer.
pub ghost struct Offer {
    pub connected: bool,
    pub files: Option<Seq<Seq<char>>>,
    pub image: Option<ImageInfo>,
    pub png: Option<Seq<u8>>,
    pub html: Option<Seq<char>>,
    pub rtf: Option<Seq<char>>,
    pub text: Option<Seq<char>>,
}

impl Offer {
    /// The reply of a clipboard with this offer.
    pub open spec fn answer(self, request: ReadRequest) -> Answer {
        match request {
            ReadRequest::Connect => Answer::Connected(self.connected),
            ReadRequest::Files => Answer::Files(self.files),
            ReadRequest::Image => Answer::Image(self.image),
            ReadRequest::Png => Answer::Png(self.png),
            ReadRequest::Html => Answer::Text(self.html),
            ReadRequest::Rtf => Answer::Text(self.rtf),
            ReadRequest::Text => Answer::Text(self.text),
        }
    }

    /// What a read takes from the offer: paths before an image, an image before
    /// rich text, HTML before RTF, rich text before plain text.
    pub open spec fn selected(self, max_files: nat) -> Content {
        if !self.connected {
            Content::Empty
        } else if self.files matches Some(files) && path::kept_paths(files, max_files).len() > 0 {
            Content::Files(path::kept_paths(self.files->0, max_files))
        } else if self.image matches Some(image) && !image.empty {
            Content::Image {
                width: self.image->0.width,
                height: self.image->0.height,
                png: or_empty(self.png),
            }
        } else if keeps_html(self.html) {
            Content::RichText {
                format: RichFormat::Html,
                markup: self.html->0,
                plain: or_empty(self.text),
            }
        } else if keeps_rtf(self.rtf) {
            Content::RichText {
                format: RichFormat::Rtf,
                markup: self.rtf->0,
                plain: or_empty(self.text),
            }
        } else if self.text matches Some(text) && text.len() > 0 {
            Content::Text(self.text->0)
        } else {
            Content::Empty
        }
    }

    /// How far a read has come after `n` replies of this clipboard.
    pub open spec fn reading_after(self, max_files: nat, n: nat) -> Reading
        decreases n,
    {
        if n == 0 {
            Reading::Connect
        } else {
            let before = self.reading_after(max_files, (n - 1) as nat);
            match before.request() {
                Some(request) => before.after(max_files, self.answer(request)),
                None => before,
            }
        }
    }
}

/// Whatever a clipboard offers, after six replies a read knows its content, and
/// it is the first on the list of priorities.
pub proof fn law_read_takes_the_first_that_is_there(offer: Offer, max_files: nat)
    ensures
        offer.reading_after(max_files, 6) == Reading::Done(offer.selected(max_files)),
{
    reveal_with_fuel(Offer::reading_after, 7);
}

/// A read that knows its content asks for nothing more and keeps it.
pub proof fn law_known_content_stays(content: Content, max_files: nat, answer: Answer)
    ensures
        Reading::Done(content).request() is None,
        Reading::Done(content).after(max_files, answer) == Reading::Done(content),
{
}

/// What a read delivers is never an empty text and never an empty list of
/// paths, keeps at most `max_files` paths, and holds rich markup only where it
/// is rich.
pub proof fn law_content_is_worth_delivering(offer: Offer, max_files: nat)
    ensures
        match offer.selected(max_files) {
            Content::Text(text) => text.len() > 0,
            Content::Files(paths) => 0 < paths.len() <= max_files,
            Content::RichText { format, markup, plain } => match format {
                RichFormat::Html => rich::is_rich_html(markup),
                RichFormat::Rtf => rich::is_rich_rtf(markup),
            },
            _ => true,
        },
{
}

/// What is stated of a reply is stated of all that it holds: the whole text, every
/// byte, every file reference.
pub proof fn law_reply_is_seen_whole(reply: ReadReply)
    ensures
        reply matches ReadReply::Connected(ok) ==> reply@ == Answer::Connected(ok),
        reply matches ReadReply::Files(Some(files)) ==> (reply@ matches Answer::Files(Some(f))
            && f.len() == files@.len() && forall|i: int|
            0 <= i < f.len() ==> #[trigger] f[i] == files@[i]@),
        reply matches ReadReply::Files(None) ==> reply@ == Answer::Files(None),
        reply matches ReadReply::Image(image) ==> reply@ == Answer::Image(image),
        reply matches ReadReply::Png(Some(png)) ==> (reply@ matches Answer::Png(Some(p)) && p
            == png@),
        reply matches ReadReply::Png(None) ==> reply@ == Answer::Png(None),
        reply matches ReadReply::Text(Some(text)) ==> (reply@ matches Answer::Text(Some(t)) && t
            == text@),
        reply matches ReadReply::Text(None) ==> reply@ == Answer::Text(None),
{
}

/// The clipboard holds no file reference to take: none at all, only blank ones, or
/// there is room for none.
pub open spec fn without_files(offer: Offer, max_files: nat) -> bool {
    offer.files matches Some(files) ==> max_files == 0 || forall|k: int|
        0 <= k < files.len() ==> text::all_white(#[trigger] files[k])
}

/// The clipboard holds no image with data in it.
pub open spec fn without_image(offer: Offer) -> bool {
    offer.image matches Some(image) ==> image.empty
}

proof fn lemma_no_files_no_paths(offer: Offer, max_files: nat)
    requires
        without_files(offer, max_files),
        offer.files is Some,
    ensures
        path::kept_paths(offer.files->0, max_files).len() == 0,
{
    let files = offer.files->0;
    let paths = path::kept_paths(files, max_files);
    path::law_paths_are_capped(files, max_files);
    if paths.len() > 0 {
        assert(path::is_path_of_one(files, paths[0]));
        let k = choose|k: int|
            0 <= k < files.len() && path::is_reference(#[trigger] files[k]) && path::normalized(
                files[k],
            ) == paths[0];
        text::law_only_white_space_trims_to_nothing(files[k]);
    }
}

proof fn lemma_rich_is_not_blank(s: Seq<char>)
    ensures
        rich::is_rich_html(s) || rich::is_rich_rtf(s) ==> text::trimmed(s).len() > 0,
{
    if rich::is_rich_html(s) || rich::is_rich_rtf(s) {
        rich::law_plain_text_is_not_rich(s);
        let c = if rich::is_rich_html(s) {
            '<'
        } else {
            '\\'
        };
        let k = choose|k: int| 0 <= k < s.len() && s[k] == c;
        assert(!text::is_white_space(s[k]));
        text::law_only_white_space_trims_to_nothing(s);
    }
}

/// Where a clipboard that can be opened offers no file, no image and no rich
/// markup, but a text that is not empty, a read delivers that very text, character
/// for character.
pub proof fn law_plain_text_is_delivered_whole(offer: Offer, max_files: nat, t: Seq<char>)
    requires
        offer.connected,
        without_files(offer, max_files),
        without_image(offer),
        offer.html matches Some(html) ==> !rich::is_rich_html(html),
        offer.rtf matches Some(rtf) ==> !rich::is_rich_rtf(rtf),
        offer.text == Some(t),
        t.len() > 0,
    ensures
        offer.reading_after(max_files, 6) == Reading::Done(Content::Text(t)),
{
    if offer.files is Some {
        lemma_no_files_no_paths(offer, max_files);
    }
    law_read_takes_the_first_that_is_there(offer, max_files);
}

/// Where a clipboard that can be opened offers no file and no image, rich HTML is
/// delivered whole, and so is rich RTF where the HTML is not rich, each with the
/// whole plain text beside it, if there is one.
pub proof fn law_rich_markup_is_delivered_whole(offer: Offer, max_files: nat, m: Seq<char>)
    requires
        offer.connected,
        without_files(offer, max_files),
        without_image(offer),
    ensures
        offer.html == Some(m) && rich::is_rich_html(m) ==> (offer.reading_after(max_files, 6) matches
            Reading::Done(Content::RichText { format, markup, plain }) && format is Html && markup
            == m && (offer.text matches Some(t) ==> plain == t) && (offer.text is None ==> plain.len()
            == 0)),
        (offer.html matches Some(html) ==> !rich::is_rich_html(html)) ==> offer.rtf == Some(m)
            && rich::is_rich_rtf(m) ==> (offer.reading_after(max_files, 6) matches Reading::Done(
            Content::RichText { format, markup, plain },
        ) && format is Rtf && markup == m && (offer.text matches Some(t) ==> plain == t) && (
        offer.text is None ==> plain.len() == 0)),
{
    if offer.files is Some {
        lemma_no_files_no_paths(offer, max_files);
    }
    lemma_rich_is_not_blank(m);
    law_read_takes_the_first_that_is_there(offer, max_files);
}

/// Where a clipboard that can be opened offers no file, an image with data in it is
/// delivered with its size and every byte of its encoding, whatever else there is.
pub proof fn law_image_is_delivered_whole(offer: Offer, max_files: nat)
    requires
        offer.connected,
        without_files(offer, max_files),
        offer.image is Some,
        !offer.image->0.empty,
    ensures
        offer.reading_after(max_files, 6) matches Reading::Done(
            Content::Image { width, height, png },
        ) && width == offer.image->0.width && height == offer.image->0.height && (
        offer.png matches Some(p) ==> png == p) && (offer.png is None ==> png.len() == 0),
{
    if offer.files is Some {
        lemma_no_files_no_paths(offer, max_files);
    }
    law_read_takes_the_first_that_is_there(offer, max_files);
}

/// Files that are not blank are delivered before anything else, as many as there is
/// room for; where none is blank and all fit, every one at its place, as its path.
pub proof fn law_files_are_delivered_first(offer: Offer, max_files: nat, files: Seq<Seq<char>>)
    requires
        offer.connected,
        offer.files == Some(files),
        max_files > 0,
        exists|k: int| 0 <= k < files.len() && !text::all_white(#[trigger] files[k]),
    ensures
        offer.reading_after(max_files, 6) matches Reading::Done(Content::Files(paths)) && 0
            < paths.len() <= max_files && paths == path::kept_paths(files, max_files),
        files.len() <= max_files && (forall|k: int|
            0 <= k < files.len() ==> !text::all_white(#[trigger] files[k])) ==> (
        offer.reading_after(max_files, 6) matches Reading::Done(Content::Files(paths))
            && paths.len() == files.len() && forall|k: int|
            0 <= k < files.len() ==> #[trigger] paths[k] == path::normalized(files[k])),
{
    lemma_one_reference_gives_a_path(files, max_files);
    path::law_paths_are_capped(files, max_files);
    law_read_takes_the_first_that_is_there(offer, max_files);
    if files.len() <= max_files && (forall|k: int|
        0 <= k < files.len() ==> !text::all_white(#[trigger] files[k])) {
        lemma_all_references_give_their_paths(files, max_files);
    }
}

proof fn lemma_one_reference_gives_a_path(files: Seq<Seq<char>>, max_files: nat)
    requires
        max_files > 0,
        exists|k: int| 0 <= k < files.len() && !text::all_white(#[trigger] files[k]),
    ensures
        path::kept_paths(files, max_files).len() > 0,
    decreases files.len(),
{
    let before = files.drop_last();
    let file = files.last();
    assert(before.push(file) =~= files);
    path::law_each_reference_adds_its_path(before, file, max_files);
    text::law_only_white_space_trims_to_nothing(file);
    if text::all_white(file) {
        let k = choose|k: int| 0 <= k < files.len() && !text::all_white(#[trigger] files[k]);
        assert(before[k] == files[k]);
        lemma_one_reference_gives_a_path(before, max_files);
    }
}

proof fn lemma_all_references_give_their_paths(files: Seq<Seq<char>>, max_files: nat)
    requires
        files.len() <= max_files,
        forall|k: int| 0 <= k < files.len() ==> !text::all_white(#[trigger] files[k]),
    ensures
        path::kept_paths(files, max_files).len() == files.len(),
        forall|k: int|
            0 <= k < files.len() ==> #[trigger] path::kept_paths(files, max_files)[k]
                == path::normalized(files[k]),
    decreases files.len(),
{
    if files.len() == 0 {
        path::law_each_reference_adds_its_path(files, seq![], max_files);
        assert(files =~= seq![]);
    } else {
        let before = files.drop_last();
        let file = files.last();
        assert(before.push(file) =~= files);
        assert forall|k: int| 0 <= k < before.len() implies !text::all_white(
            #[trigger] before[k],
        ) by {
            assert(before[k] == files[k]);
        }
        lemma_all_references_give_their_paths(before, max_files);
        path::law_each_reference_adds_its_path(before, file, max_files);
        assert(!text::all_white(files[files.len() - 1]));
        text::law_only_white_space_trims_to_nothing(file);
    }
}

/// Nothing is delivered of a clipboard that cannot be opened, nor of one that
/// offers nothing to take.
pub proof fn law_nothing_gives_nothing(offer: Offer, max_files: nat)
    requires
        !offer.connected || (without_files(offer, max_files) && without_image(offer) && (
        offer.html matches Some(html) ==> !rich::is_rich_html(html)) && (offer.rtf matches Some(rtf)
            ==> !rich::is_rich_rtf(rtf)) && (offer.text matches Some(t) ==> t.len() == 0)),
    ensures
        offer.reading_after(max_files, 6) == Reading::Done(Content::Empty),
{
    if offer.connected && offer.files is Some {
        lemma_no_files_no_paths(offer, max_files);
    }
    law_read_takes_the_first_that_is_there(offer, max_files);
}

/// A reply about something else counts as a read that failed, however far the read
/// has come.
pub proof fn law_stray_reply_is_a_failed_read(reading: Reading, max_files: nat, answer: Answer)
    ensures
        reading is Connect && !(answer is Connected) ==> reading.after(max_files, answer)
            == reading.after(max_files, Answer::Connected(false)),
        reading is Files && !(answer is Files) ==> reading.after(max_files, answer)
            == reading.after(max_files, Answer::Files(None)),
        reading is Image && !(answer is Image) ==> reading.after(max_files, answer)
            == reading.after(max_files, Answer::Image(None)),
        reading is Png && !(answer is Png) ==> reading.after(max_files, answer) == reading.after(
            max_files,
            Answer::Png(None),
        ),
        (reading is Html || reading is HtmlPlain || reading is Rtf || reading is RtfPlain
            || reading is Text) && !(answer is Text) ==> reading.after(max_files, answer)
            == reading.after(max_files, Answer::Text(None)),
{
}

} // verus!
