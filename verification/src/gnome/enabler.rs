//! Enabling the extension, preferring the running shell over raw settings.
//!
//! First the running shell is asked to enable the extension. When it already
//! knows the extension, installed at a previous login but sitting dormant, this
//! activates it at once. It cannot enable a freshly written extension: the shell
//! only scans for new ones at login.
//!
//! Failing that, the settings are written, which GNOME reads at the next login.
//! Adding to `enabled-extensions` alone is not enough: `disabled-extensions`
//! outranks it, so a stale entry there keeps the extension off through every
//! future login. It is removed too.

use crate::event;
use crate::gnome::gvariant;
use crate::gnome::installer::EXTENSION_UUID;
use crate::list;
use crate::text;
use vstd::prelude::*;

verus! {

/// A list of extensions in the settings of GNOME Shell.
#[derive(Debug, Clone, Copy, PartialEq, Eq, Structural)]
pub enum ListKey {
    /// `enabled-extensions`
    Enabled,
    /// `disabled-extensions`
    Disabled,
}

impl ListKey {
    /// The name of the key.
    pub open spec fn text(self) -> Seq<char> {
        match self {
            ListKey::Enabled => "enabled-extensions"@,
            ListKey::Disabled => "disabled-extensions"@,
        }
    }

    /// The name of the key.
    pub fn name(self) -> (r: &'static str)
        ensures
            r@ == self.text(),
    {
        match self {
            ListKey::Enabled => "enabled-extensions",
            ListKey::Disabled => "disabled-extensions",
        }
    }
}

/// The list with `uuid` appended; `None` when it is already present.
pub open spec fn appended(list: Seq<Seq<char>>, uuid: Seq<char>) -> Option<Seq<Seq<char>>> {
    if list.contains(uuid) {
        None
    } else {
        Some(list.push(uuid))
    }
}

/// An entry is another than `uuid`.
pub open spec fn other_than(uuid: Seq<char>) -> spec_fn(Seq<char>) -> bool {
    |u: Seq<char>| u != uuid
}

/// The list with `uuid` removed wherever it stands; `None` when it is absent.
pub open spec fn removed(list: Seq<Seq<char>>, uuid: Seq<char>) -> Option<Seq<Seq<char>>> {
    if list.contains(uuid) {
        Some(list.filter(other_than(uuid)))
    } else {
        None
    }
}

/// Whether `uuid` stands in the list.
fn lists(uuids: &[String], uuid: &str) -> (r: bool)
    ensures
        r == event::texts(uuids@).contains(uuid@),
{
    let ghost list = event::texts(uuids@);
    for i in 0..uuids.len()
        invariant
            list == event::texts(uuids@),
            forall|k: int| 0 <= k < i ==> list[k] != uuid@,
    {
        assert(list[i as int] == uuids@[i as int]@);
        if text::same(uuids[i].as_str(), uuid) {
            return true;
        }
    }
    false
}

/// What a list of strings holds, a list or none.
pub open spec fn list_view(list: Option<Vec<String>>) -> Option<Seq<Seq<char>>> {
    match list {
        Some(v) => Some(event::texts(v@)),
        None => None,
    }
}

/// The list with `uuid` appended, or `None` when it is already present.
pub fn append_uuid(uuids: Vec<String>, uuid: &str) -> (r: Option<Vec<String>>)
    ensures
        list_view(r) == appended(event::texts(uuids@), uuid@),
{
    if lists(&uuids, uuid) {
        return None;
    }
    let ghost list = event::texts(uuids@);
    let mut uuids: Vec<String> = uuids;
    uuids.push(uuid.to_owned());
    assert(event::texts(uuids@) =~= list.push(uuid@));
    Some(uuids)
}

/// The list with `uuid` removed, or `None` when it was absent.
pub fn remove_uuid(uuids: Vec<String>, uuid: &str) -> (r: Option<Vec<String>>)
    ensures
        list_view(r) == removed(event::texts(uuids@), uuid@),
{
    if !lists(&uuids, uuid) {
        return None;
    }
    let ghost list = event::texts(uuids@);
    let ghost keep = other_than(uuid@);
    let mut kept: Vec<String> = Vec::new();
    assert(list.take(0).filter(keep) =~= Seq::empty()) by {
        reveal(Seq::filter);
    }
    assert(event::texts(kept@) =~= Seq::empty());
    for i in 0..uuids.len()
        invariant
            list == event::texts(uuids@),
            keep == other_than(uuid@),
            event::texts(kept@) == list.take(i as int).filter(keep),
    {
        let ghost done = event::texts(kept@);
        assert(list.take(i + 1).drop_last() =~= list.take(i as int));
        assert(list[i as int] == uuids@[i as int]@);
        proof {
            reveal(Seq::filter);
        }
        if !text::same(uuids[i].as_str(), uuid) {
            kept.push(uuids[i].clone());
            assert(event::texts(kept@) =~= done.push(list[i as int]));
        }
    }
    assert(list.take(list.len() as int) =~= list);
    Some(kept)
}

/// How the list under a key changes when the extension is enabled; `None` when
/// it is already as it should be.
pub open spec fn updated(key: ListKey, list: Seq<Seq<char>>) -> Option<Seq<Seq<char>>> {
    match key {
        ListKey::Enabled => appended(list, EXTENSION_UUID@),
        ListKey::Disabled => removed(list, EXTENSION_UUID@),
    }
}

/// The text to write under a key, given the text read from it; `None` when the
/// list is already as it should be.
pub open spec fn updated_text(key: ListKey, current: Seq<char>) -> Option<Seq<char>> {
    match updated(key, gvariant::parsed(current)) {
        Some(list) => Some(gvariant::formatted(list)),
        None => None,
    }
}

/// The text to write under a key, given the text read from it; `None` when the
/// list is already as it should be, which skips the write.
pub fn update_extension_list(key: ListKey, current: &str) -> (r: Option<String>)
    ensures
        match updated_text(key, current@) {
            Some(t) => r matches Some(s) && s@ == t,
            None => r is None,
        },
{
    let list: Vec<String> = gvariant::parse_gvariant_string_array(current);
    let next: Option<Vec<String>> = match key {
        ListKey::Enabled => append_uuid(list, EXTENSION_UUID),
        ListKey::Disabled => remove_uuid(list, EXTENSION_UUID),
    };
    match next {
        Some(list) => Some(gvariant::format_gvariant_string_array(&list)),
        None => None,
    }
}

/// What a command left behind.
#[derive(Debug, Clone)]
pub struct CommandOutput {
    /// Whether it exited successfully.
    pub success: bool,
    /// What it wrote to its standard output.
    pub stdout: Vec<u8>,
    /// What it wrote to its standard error.
    pub stderr: Vec<u8>,
}

/// How far the enabling has come.
pub ghost enum Enabling {
    /// The running shell is to be asked.
    AskShell,
    /// The list under a key is to be read.
    Read(ListKey),
    /// A text is to be written under a key.
    Write(ListKey, Seq<char>),
    /// Done, or failed for the reason given.
    Done(Result<(), Seq<char>>),
}

/// Why a settings command that ran did not do its work.
pub open spec fn command_failure(verb: Seq<char>, key: ListKey, stderr: Seq<u8>) -> Seq<char> {
    "`gsettings "@ + verb + " org.gnome.shell "@ + key.text() + "` failed: "@ + text::trimmed(
        text::lossy(stderr),
    )
}

/// Why a settings command did not run.
pub open spec fn command_missing(error: Seq<char>) -> Seq<char> {
    "cannot run gsettings: "@ + error
}

impl Enabling {
    /// What follows once the list under `key` is as it should be.
    pub open spec fn behind(key: ListKey) -> Enabling {
        match key {
            ListKey::Enabled => Enabling::Read(ListKey::Disabled),
            ListKey::Disabled => Enabling::Done(Ok(())),
        }
    }

    /// The state after the shell's reply. An extension that the shell enabled
    /// needs nothing more.
    pub open spec fn after_shell(self, enabled: bool) -> Enabling {
        match self {
            Enabling::AskShell => if enabled {
                Enabling::Done(Ok(()))
            } else {
                Enabling::Read(ListKey::Enabled)
            },
            _ => self,
        }
    }

    /// The state after a settings command, or after it could not be run.
    pub open spec fn after_output(self, output: Result<CommandOutput, String>) -> Enabling {
        match self {
            Enabling::Read(key) => match output {
                Err(e) => Enabling::Done(Err(command_missing(e@))),
                Ok(o) => if !o.success {
                    Enabling::Done(Err(command_failure("get"@, key, o.stderr@)))
                } else {
                    match updated_text(key, text::lossy(o.stdout@)) {
                        Some(next) => Enabling::Write(key, next),
                        None => Enabling::behind(key),
                    }
                },
            },
            Enabling::Write(key, _) => match output {
                Err(e) => Enabling::Done(Err(command_missing(e@))),
                Ok(o) => if !o.success {
                    Enabling::Done(Err(command_failure("set"@, key, o.stderr@)))
                } else {
                    Enabling::behind(key)
                },
            },
            _ => self,
        }
    }
}

/// What enabling the extension needs done next.
#[derive(Debug)]
pub enum EnableRequest {
    /// Ask the running shell to enable the extension, and report to
    /// [`Enabler::on_shell`] whether it did. Every failure counts as no.
    AskShell,
    /// Run `gsettings get org.gnome.shell` with the key and report its output to
    /// [`Enabler::on_output`].
    Read(ListKey),
    /// Run `gsettings set org.gnome.shell` with the key and the text and report
    /// its output to [`Enabler::on_output`].
    Write(ListKey, String),
    /// Nothing more: the extension is enabled, or could not be for the reason given.
    Done(Result<(), String>),
}

/// Enables the extension.
pub struct Enabler {
    stage: EnableRequest,
}

/// What a request asks for, over sequences of characters.
pub open spec fn request_view(request: EnableRequest) -> Enabling {
    match request {
        EnableRequest::AskShell => Enabling::AskShell,
        EnableRequest::Read(key) => Enabling::Read(key),
        EnableRequest::Write(key, text) => Enabling::Write(key, text@),
        EnableRequest::Done(Ok(())) => Enabling::Done(Ok(())),
        EnableRequest::Done(Err(e)) => Enabling::Done(Err(e@)),
    }
}

impl View for Enabler {
    type V = Enabling;

    closed spec fn view(&self) -> Enabling {
        request_view(self.stage)
    }
}

impl Enabler {
    /// An enabler that has done nothing yet.
    pub fn new() -> (r: Enabler)
        ensures
            r@ == Enabling::AskShell,
    {
        Enabler { stage: EnableRequest::AskShell }
    }

    /// What to do next.
    pub fn request(&self) -> (r: EnableRequest)
        ensures
            request_view(r) == self@,
    {
        match &self.stage {
            EnableRequest::AskShell => EnableRequest::AskShell,
            EnableRequest::Read(key) => EnableRequest::Read(*key),
            EnableRequest::Write(key, text) => EnableRequest::Write(*key, text.clone()),
            EnableRequest::Done(Ok(())) => EnableRequest::Done(Ok(())),
            EnableRequest::Done(Err(e)) => EnableRequest::Done(Err(e.clone())),
        }
    }

    fn behind(key: ListKey) -> (r: EnableRequest)
        ensures
            request_view(r) == Enabling::behind(key),
    {
        match key {
            ListKey::Enabled => EnableRequest::Read(ListKey::Disabled),
            ListKey::Disabled => EnableRequest::Done(Ok(())),
        }
    }

    fn failed(verb: &str, key: ListKey, stderr: &[u8]) -> (r: EnableRequest)
        ensures
            request_view(r) == Enabling::Done(Err(command_failure(verb@, key, stderr@))),
    {
        let why: String = text::from_utf8_lossy(stderr);
        let why: String = text::trim(why.as_str());
        let message: String = "`gsettings ".to_owned().concat(verb).concat(
            " org.gnome.shell ",
        ).concat(key.name()).concat("` failed: ").concat(why.as_str());
        EnableRequest::Done(Err(message))
    }

    fn missing(error: String) -> (r: EnableRequest)
        ensures
            request_view(r) == Enabling::Done(Err(command_missing(error@))),
    {
        EnableRequest::Done(Err("cannot run gsettings: ".to_owned().concat(error.as_str())))
    }

    /// Takes the shell's reply: whether it enabled the extension.
    pub fn on_shell(self, enabled: bool) -> (r: Enabler)
        ensures
            r@ == self@.after_shell(enabled),
    {
        match self.stage {
            EnableRequest::AskShell => if enabled {
                Enabler { stage: EnableRequest::Done(Ok(())) }
            } else {
                Enabler { stage: EnableRequest::Read(ListKey::Enabled) }
            },
            stage => Enabler { stage },
        }
    }

    /// Takes the output of a settings command, or why it could not be run.
    pub fn on_output(self, output: Result<CommandOutput, String>) -> (r: Enabler)
        ensures
            r@ == self@.after_output(output),
    {
        let stage: EnableRequest = match self.stage {
            EnableRequest::Read(key) => match output {
                Err(e) => Self::missing(e),
                Ok(o) => if !o.success {
                    Self::failed("get", key, &o.stderr)
                } else {
                    let current: String = text::from_utf8_lossy(&o.stdout);
                    match update_extension_list(key, current.as_str()) {
                        Some(next) => EnableRequest::Write(key, next),
                        None => Self::behind(key),
                    }
                },
            },
            EnableRequest::Write(key, text) => match output {
                Err(e) => Self::missing(e),
                Ok(o) => if !o.success {
                    Self::failed("set", key, &o.stderr)
                } else {
                    Self::behind(key)
                },
            },
            stage => stage,
        };
        Enabler { stage }
    }
}

/// The list that stands under a key once it is updated: where a text is
/// written, the list that reads back from it.
pub open spec fn settled(key: ListKey, list: Seq<Seq<char>>) -> Seq<Seq<char>> {
    match updated(key, list) {
        Some(next) => gvariant::parsed(gvariant::formatted(next)),
        None => list,
    }
}

/// No entry of the list holds a single quote.
pub open spec fn is_plain(list: Seq<Seq<char>>) -> bool {
    forall|k: int| 0 <= k < list.len() ==> !(#[trigger] list[k]).contains('\'')
}

proof fn lemma_uuid_is_plain()
    ensures
        !EXTENSION_UUID@.contains('\''),
{
    reveal_strlit("copycopy@sincekmori.github.io");
}

proof fn lemma_settled(key: ListKey, list: Seq<Seq<char>>)
    requires
        is_plain(list),
    ensures
        settled(key, list) == (match updated(key, list) {
            Some(next) => next,
            None => list,
        }),
        is_plain(settled(key, list)),
{
    lemma_uuid_is_plain();
    if let Some(next) = updated(key, list) {
        assert forall|k: int| 0 <= k < next.len() implies !(#[trigger] next[k]).contains(
            '\'',
        ) by {
            match key {
                ListKey::Enabled => {
                    if k < list.len() {
                        assert(next[k] == list[k]);
                    }
                },
                ListKey::Disabled => {
                    let i = list::lemma_filtered_stands(
                        list,
                        other_than(EXTENSION_UUID@),
                        k,
                    );
                    assert(!list[i].contains('\''));
                },
            }
        }
        gvariant::law_list_reads_back(next);
    }
}

/// Appending adds the entry behind all others, once: the list then holds it,
/// and appending again changes nothing.
pub proof fn law_append_adds_once(list: Seq<Seq<char>>, uuid: Seq<char>)
    ensures
        match appended(list, uuid) {
            Some(next) => {
                &&& next.contains(uuid)
                &&& next.take(list.len() as int) == list
                &&& next.len() == list.len() + 1
                &&& appended(next, uuid) is None
            },
            None => list.contains(uuid),
        },
{
    if let Some(next) = appended(list, uuid) {
        assert(next[list.len() as int] == uuid);
        assert(next.take(list.len() as int) =~= list);
    }
}

/// Removing takes out every occurrence and nothing else: what is left stands
/// in the list, every other entry is left, and removing again changes nothing.
pub proof fn law_remove_takes_out_every_occurrence(list: Seq<Seq<char>>, uuid: Seq<char>)
    ensures
        match removed(list, uuid) {
            Some(next) => {
                &&& !next.contains(uuid)
                &&& forall|u: Seq<char>|
                    u != uuid ==> #[trigger] next.contains(u) == list.contains(u)
                &&& removed(next, uuid) is None
            },
            None => !list.contains(uuid),
        },
{
    let keep = other_than(uuid);
    if let Some(next) = removed(list, uuid) {
        assert forall|u: Seq<char>| #[trigger] next.contains(u) implies u != uuid && list.contains(
            u,
        ) by {
            let i = choose|i: int| 0 <= i < next.len() && next[i] == u;
            let k = list::lemma_filtered_stands(list, keep, i);
        }
        assert forall|u: Seq<char>| u != uuid && list.contains(u) implies #[trigger] next.contains(
            u,
        ) by {
            let k = choose|k: int| 0 <= k < list.len() && list[k] == u;
            list.lemma_filter_contains(keep, k);
        }
    }
}

/// Once both lists are settled, the extension is enabled and not disabled,
/// every other extension is listed where it was, and settling again finds
/// nothing to change. The entries hold no single quote.
pub proof fn law_settling_enables_once(enabled: Seq<Seq<char>>, disabled: Seq<Seq<char>>)
    requires
        is_plain(enabled),
        is_plain(disabled),
    ensures
        settled(ListKey::Enabled, enabled).contains(EXTENSION_UUID@),
        !settled(ListKey::Disabled, disabled).contains(EXTENSION_UUID@),
        forall|u: Seq<char>|
            u != EXTENSION_UUID@ ==> #[trigger] settled(ListKey::Enabled, enabled).contains(u)
                == enabled.contains(u),
        forall|u: Seq<char>|
            u != EXTENSION_UUID@ ==> #[trigger] settled(ListKey::Disabled, disabled).contains(u)
                == disabled.contains(u),
        updated(ListKey::Enabled, settled(ListKey::Enabled, enabled)) is None,
        updated(ListKey::Disabled, settled(ListKey::Disabled, disabled)) is None,
{
    lemma_settled(ListKey::Enabled, enabled);
    lemma_settled(ListKey::Disabled, disabled);
    law_append_adds_once(enabled, EXTENSION_UUID@);
    law_remove_takes_out_every_occurrence(disabled, EXTENSION_UUID@);
    let next = settled(ListKey::Enabled, enabled);
    assert forall|u: Seq<char>| u != EXTENSION_UUID@ implies #[trigger] next.contains(u)
        == enabled.contains(u) by {
        if enabled.contains(u) {
            let k = choose|k: int| 0 <= k < enabled.len() && enabled[k] == u;
            assert(next[k] == u);
        }
        if next.contains(u) {
            let k = choose|k: int| 0 <= k < next.len() && next[k] == u;
            assert(k < enabled.len() ==> enabled[k] == u);
        }
    }
}

/// The state once the list under a key has been read and, where it has to
/// change, written.
pub open spec fn after_update(
    state: Enabling,
    read: CommandOutput,
    written: CommandOutput,
) -> Enabling {
    match state.after_output(Ok(read)) {
        Enabling::Write(key, text) => Enabling::Write(key, text).after_output(Ok(written)),
        other => other,
    }
}

/// A shell that enables the extension is enough. Otherwise the list of enabled
/// extensions is dealt with, then the list of disabled ones, and with commands
/// that succeed the enabling does too.
pub proof fn law_enabling_succeeds_with_its_commands(
    read_enabled: CommandOutput,
    written_enabled: CommandOutput,
    read_disabled: CommandOutput,
    written_disabled: CommandOutput,
)
    requires
        read_enabled.success,
        written_enabled.success,
        read_disabled.success,
        written_disabled.success,
    ensures
        Enabling::AskShell.after_shell(true) == Enabling::Done(Ok(())),
        Enabling::AskShell.after_shell(false) == Enabling::Read(ListKey::Enabled),
        after_update(Enabling::Read(ListKey::Enabled), read_enabled, written_enabled)
            == Enabling::Read(ListKey::Disabled),
        after_update(Enabling::Read(ListKey::Disabled), read_disabled, written_disabled)
            == Enabling::Done(Ok(())),
{
}

/// The text written under a key reads back as the list read from the key with only
/// the extension's own entry added or taken out. For every list of entries without
/// a single quote, in its text form with white space around it or not: under the
/// key of the enabled extensions nothing is written where the extension is listed,
/// and else a text that reads back as the whole list with the extension behind it;
/// under the key of the disabled ones nothing where it is not listed, and else a
/// text that reads back as the list without it, every other entry in its order.
pub proof fn law_written_list_keeps_every_other_entry(
    front: Seq<char>,
    list: Seq<Seq<char>>,
    back: Seq<char>,
)
    requires
        text::all_white(front),
        text::all_white(back),
        is_plain(list),
    ensures
        ({
            let current = front + gvariant::formatted(list) + back;
            let own = EXTENSION_UUID@;
            &&& list.contains(own) ==> updated_text(ListKey::Enabled, current) is None
            &&& !list.contains(own) ==> (updated_text(ListKey::Enabled, current) matches Some(t)
                && gvariant::parsed(t) == list.push(own))
            &&& !list.contains(own) ==> updated_text(ListKey::Disabled, current) is None
            &&& list.contains(own) ==> (updated_text(ListKey::Disabled, current) matches Some(t)
                && gvariant::parsed(t) == list.filter(other_than(own)))
        }),
{
    gvariant::law_list_reads_back_with_white_space_around(front, list, back);
    lemma_settled(ListKey::Enabled, list);
    lemma_settled(ListKey::Disabled, list);
}

/// Appending and removing are exact: the list with the entry behind it, or without
/// any occurrence of it, and nothing where there is nothing to do.
pub proof fn law_appending_and_removing_are_exact(
    list: Seq<Seq<char>>,
    uuid: Seq<char>,
    entry: Seq<char>,
)
    ensures
        list.contains(uuid) ==> appended(list, uuid) is None,
        !list.contains(uuid) ==> appended(list, uuid) == Some(list.push(uuid)),
        !list.contains(uuid) ==> removed(list, uuid) is None,
        list.contains(uuid) ==> removed(list, uuid) == Some(list.filter(other_than(uuid))),
        other_than(uuid)(entry) <==> entry != uuid,
{
}

/// What a settings command printed decides what is written: the bytes of the text
/// form of a list of entries without a single quote, with white space around it,
/// lead to a text that reads back as the list with the extension in it, or without
/// it, and to no write where the list is as it should be.
pub proof fn law_printed_list_decides_the_write(
    front: Seq<char>,
    list: Seq<Seq<char>>,
    back: Seq<char>,
    output: CommandOutput,
)
    requires
        text::all_white(front),
        text::all_white(back),
        is_plain(list),
        output.success,
        output.stdout@ == vstd::utf8::encode_utf8(front + gvariant::formatted(list) + back),
    ensures
        ({
            let own = EXTENSION_UUID@;
            let enabled = Enabling::Read(ListKey::Enabled).after_output(Ok(output));
            let disabled = Enabling::Read(ListKey::Disabled).after_output(Ok(output));
            &&& !list.contains(own) ==> (enabled matches Enabling::Write(key, t) && key is Enabled
                && gvariant::parsed(t) == list.push(own))
            &&& list.contains(own) ==> enabled == Enabling::Read(ListKey::Disabled)
            &&& list.contains(own) ==> (disabled matches Enabling::Write(key, t) && key is Disabled
                && gvariant::parsed(t) == list.filter(other_than(own)))
            &&& !list.contains(own) ==> disabled == Enabling::Done(Ok(()))
        }),
{
    law_written_list_keeps_every_other_entry(front, list, back);
    text::law_encoded_text_reads_back(front + gvariant::formatted(list) + back, seq![]);
}

/// A settings command that fails, at whatever point, ends the enabling with what it
/// wrote to its standard error, without the white space around it, or with why it
/// could not be run; and once the enabling is over nothing changes that.
pub proof fn law_failed_command_ends_the_enabling(
    key: ListKey,
    written: Seq<char>,
    failed: CommandOutput,
    error: String,
    outcome: Result<(), Seq<char>>,
    enabled: bool,
    output: Result<CommandOutput, String>,
)
    requires
        !failed.success,
    ensures
        ({
            let name = match key {
                ListKey::Enabled => "enabled-extensions"@,
                ListKey::Disabled => "disabled-extensions"@,
            };
            let why = text::trimmed(text::lossy(failed.stderr@));
            &&& Enabling::Read(key).after_output(Ok(failed)) == Enabling::Done(
                Err("`gsettings "@ + "get"@ + " org.gnome.shell "@ + name + "` failed: "@ + why),
            )
            &&& Enabling::Write(key, written).after_output(Ok(failed)) == Enabling::Done(
                Err("`gsettings "@ + "set"@ + " org.gnome.shell "@ + name + "` failed: "@ + why),
            )
            &&& Enabling::Read(key).after_output(Err(error)) == Enabling::Done(
                Err("cannot run gsettings: "@ + error@),
            )
            &&& Enabling::Write(key, written).after_output(Err(error)) == Enabling::Done(
                Err("cannot run gsettings: "@ + error@),
            )
            &&& Enabling::Done(outcome).after_output(output) == Enabling::Done(outcome)
            &&& Enabling::Done(outcome).after_shell(enabled) == Enabling::Done(outcome)
            &&& Enabling::Read(key).after_shell(enabled) == Enabling::Read(key)
            &&& Enabling::AskShell.after_output(output) == Enabling::AskShell
        }),
{
}

proof fn lemma_one_taken_out(before: Seq<Seq<char>>, uuid: Seq<char>, behind: Seq<Seq<char>>)
    requires
        !before.contains(uuid),
        !behind.contains(uuid),
    ensures
        (before.push(uuid) + behind).filter(other_than(uuid)) == before + behind,
    decreases behind.len(),
{
    let keep = other_than(uuid);
    let all = before.push(uuid) + behind;
    if behind.len() == 0 {
        assert(all =~= before.push(uuid));
        assert(all.drop_last() =~= before);
        assert(before + behind =~= before);
        assert forall|k: int| 0 <= k < before.len() implies keep(#[trigger] before[k]) by {
            assert(before.contains(before[k]));
        }
        list::lemma_filter_keeps_all(before, keep);
        reveal(Seq::filter);
    } else {
        let rest = behind.drop_last();
        let last = behind.last();
        assert(behind.contains(behind[behind.len() - 1]));
        assert(!rest.contains(uuid)) by {
            if rest.contains(uuid) {
                let k = choose|k: int| 0 <= k < rest.len() && rest[k] == uuid;
                assert(behind[k] == uuid);
            }
        }
        lemma_one_taken_out(before, uuid, rest);
        assert(all.drop_last() =~= before.push(uuid) + rest);
        assert(all.last() == last);
        assert((before + rest).push(last) =~= before + behind);
        reveal(Seq::filter);
    }
}

/// Taking out the extension's entry leaves the entries before it and the entries
/// behind it as they are, in their order.
pub proof fn law_entries_around_the_removed_one_stay(
    before: Seq<Seq<char>>,
    uuid: Seq<char>,
    behind: Seq<Seq<char>>,
)
    requires
        !before.contains(uuid),
        !behind.contains(uuid),
    ensures
        removed(before.push(uuid) + behind, uuid) == Some(before + behind),
{
    let all = before.push(uuid) + behind;
    assert(all[before.len() as int] == uuid);
    lemma_one_taken_out(before, uuid, behind);
}

/// What is written under a key is the text form of the whole list that was read
/// from it, whatever the text was, with the extension added or taken out.
pub proof fn law_whole_list_is_written(key: ListKey, current: Seq<char>)
    ensures
        ({
            let list = gvariant::parsed(current);
            let own = EXTENSION_UUID@;
            &&& key is Enabled && !list.contains(own) ==> updated_text(key, current) == Some(
                gvariant::formatted(list.push(own)),
            )
            &&& key is Disabled && list.contains(own) ==> updated_text(key, current) == Some(
                gvariant::formatted(list.filter(other_than(own))),
            )
            &&& key is Enabled && list.contains(own) ==> updated_text(key, current) is None
            &&& key is Disabled && !list.contains(own) ==> updated_text(key, current) is None
        }),
{
}

/// What is stated of a list is stated of all of its entries, each at its place, and
/// what is stated of a request of the whole text and the whole reason in it.
pub proof fn law_lists_and_requests_are_seen_whole(
    list: Option<Vec<String>>,
    request: EnableRequest,
)
    ensures
        list is None <==> list_view(list) is None,
        list matches Some(v) ==> list_view(list) is Some && list_view(list)->0.len() == v@.len()
            && forall|i: int| 0 <= i < v@.len() ==> #[trigger] list_view(list)->0[i] == v@[i]@,
        request is AskShell <==> request_view(request) is AskShell,
        request matches EnableRequest::Read(key) ==> request_view(request) == Enabling::Read(key),
        request matches EnableRequest::Write(key, t) ==> request_view(request) == Enabling::Write(
            key,
            t@,
        ),
        request matches EnableRequest::Done(Ok(())) ==> request_view(request) == Enabling::Done(
            Ok(()),
        ),
        request matches EnableRequest::Done(Err(e)) ==> request_view(request) == Enabling::Done(
            Err(e@),
        ),
{
}

} // verus!
