//! Unprivileged installation of the embedded GNOME Shell extension.
//!
//! Everything happens under `~/.local/share/gnome-shell/extensions/`: no sudo,
//! no system paths. The one thing that cannot be done is to make a running
//! gnome-shell load a *newly installed* extension: that requires the user to log
//! out and back in once (Wayland has no shell restart).
//!
//! The file system is left to the caller: [`Installer`] says what to do next and
//! takes what came back.

use crate::gnome::script::EXTENSION_JS;
use crate::gnome::session;
use crate::text;
use vstd::prelude::*;

verus! {

/// UUID of the embedded extension (its install directory name).
pub const EXTENSION_UUID: &'static str = "copycopy@sincekmori.github.io";

/// The `metadata.json` of the embedded extension. Each supported major version
/// of GNOME Shell is listed; there is no range syntax.
pub const METADATA_JSON: &'static str = "{\n  \"version\": 1,\n  \"uuid\": \"copycopy@sincekmori.github.io\",\n  \"name\": \"copycopy\",\n  \"description\": \"Hands two copies in quick succession over to applications.\",\n  \"shell-version\": [\"45\", \"46\", \"47\", \"48\", \"49\", \"50\"]\n}\n";

/// The key of the version in a `metadata.json`, its quotes included. It is not
/// part of the key `"shell-version"`.
pub open spec fn version_key() -> Seq<char> {
    "\"version\""@
}

/// An ASCII digit.
pub open spec fn is_digit(c: char) -> bool {
    '0' <= c <= '9'
}

/// The ASCII digits that a text begins with.
pub open spec fn leading_digits(s: Seq<char>) -> Seq<char>
    decreases s.len(),
{
    if s.len() > 0 && is_digit(s[0]) {
        seq![s[0]] + leading_digits(s.skip(1))
    } else {
        seq![]
    }
}

/// The number that ASCII digits stand for.
pub open spec fn decimal(digits: Seq<char>) -> nat
    decreases digits.len(),
{
    if digits.len() == 0 {
        0
    } else {
        decimal(digits.drop_last()) * 10 + (digits.last() as u32 - 0x30) as nat
    }
}

/// The number that a text begins with; none without a digit, and none that
/// needs more than 64 bits.
pub open spec fn number(s: Seq<char>) -> Option<u64> {
    let digits = leading_digits(s);
    if digits.len() == 0 || decimal(digits) > u64::MAX {
        None
    } else {
        Some(decimal(digits) as u64)
    }
}

/// The number behind a colon, white space before and behind the colon aside.
pub open spec fn number_behind_colon(s: Seq<char>) -> Option<u64> {
    let rest = text::trimmed_start(s);
    if rest.len() > 0 && rest[0] == ':' {
        number(text::trimmed_start(rest.skip(1)))
    } else {
        None
    }
}

/// The version key stands at position `i` as a key: a colon follows it, white
/// space aside. Where it stands as a value, none does.
pub open spec fn key_at(s: Seq<char>, i: int) -> bool {
    let rest = text::trimmed_start(s.skip(i + version_key().len()));
    &&& text::occurs_at(s, version_key(), i)
    &&& rest.len() > 0
    &&& rest[0] == ':'
}

/// The version key stands at position `i` as a key, and nowhere before.
pub open spec fn first_key_at(s: Seq<char>, i: int) -> bool {
    key_at(s, i) && forall|j: int| j < i ==> !key_at(s, j)
}

/// The number behind the first version key of a `metadata.json`.
pub open spec fn version_field(s: Seq<char>) -> Option<u64> {
    if exists|i: int| key_at(s, i) {
        let i = choose|i: int| first_key_at(s, i);
        number_behind_colon(s.skip(i + version_key().len()))
    } else {
        None
    }
}

proof fn lemma_first_key_is_one(s: Seq<char>, i: int)
    requires
        first_key_at(s, i),
    ensures
        (choose|k: int| first_key_at(s, k)) == i,
{
    let k = choose|k: int| first_key_at(s, k);
    assert(first_key_at(s, k));
    if k < i {
        assert(!key_at(s, k));
    }
    if i < k {
        assert(!key_at(s, i));
    }
}

proof fn lemma_decimal_prefix(digits: Seq<char>, i: int)
    requires
        0 <= i <= digits.len(),
    ensures
        decimal(digits.take(i)) <= decimal(digits),
    decreases digits.len() - i,
{
    if i < digits.len() {
        lemma_decimal_prefix(digits, i + 1);
        assert(digits.take(i + 1).drop_last() =~= digits.take(i));
    } else {
        assert(digits.take(i) =~= digits);
    }
}

/// The end of the digits that `v` holds from `from` on.
fn skip_digits(v: &[char], from: usize) -> (r: usize)
    requires
        from <= v@.len(),
    ensures
        from <= r <= v@.len(),
        v@.subrange(from as int, r as int) == leading_digits(v@.skip(from as int)),
        forall|k: int| from <= k < r ==> is_digit(#[trigger] v@[k]),
{
    let mut i: usize = from;
    while i < v.len() && '0' <= v[i] && v[i] <= '9'
        invariant
            from <= i <= v@.len(),
            forall|k: int| from <= k < i ==> is_digit(#[trigger] v@[k]),
            v@.subrange(from as int, i as int) + leading_digits(v@.skip(i as int))
                == leading_digits(v@.skip(from as int)),
        decreases v@.len() - i,
    {
        assert(v@.skip(i as int).skip(1) =~= v@.skip(i + 1));
        assert(v@.subrange(from as int, i + 1) + leading_digits(v@.skip(i + 1)) =~= v@.subrange(
            from as int,
            i as int,
        ) + leading_digits(v@.skip(i as int)));
        i += 1;
    }
    assert(leading_digits(v@.skip(i as int)) =~= Seq::empty());
    assert(v@.subrange(from as int, i as int) + Seq::empty() =~= v@.subrange(from as int, i as int));
    i
}

/// The number that `v` holds from `from` on.
fn parse_number(v: &[char], from: usize) -> (r: Option<u64>)
    requires
        from <= v@.len(),
    ensures
        r == number(v@.skip(from as int)),
{
    let end: usize = skip_digits(v, from);
    let ghost digits = v@.subrange(from as int, end as int);
    if end == from {
        return None;
    }
    let mut value: u64 = 0;
    assert(digits.take(0) =~= Seq::empty());
    for i in from..end
        invariant
            from <= end <= v@.len(),
            from < end,
            digits == v@.subrange(from as int, end as int),
            digits == leading_digits(v@.skip(from as int)),
            forall|k: int| from <= k < end ==> is_digit(#[trigger] v@[k]),
            value == decimal(digits.take(i - from)),
    {
        let c: char = v[i];
        assert(is_digit(v@[i as int]));
        let digit: u64 = (c as u32 - 0x30) as u64;
        assert(digits.take(i + 1 - from).drop_last() =~= digits.take(i - from));
        assert(digits.take(i + 1 - from).last() == c);
        assert(decimal(digits.take(i + 1 - from)) == value * 10 + digit);
        if value > (u64::MAX - digit) / 10 {
            proof {
                lemma_decimal_prefix(digits, i + 1 - from);
            }
            return None;
        }
        value = value * 10 + digit;
    }
    assert(digits.take(end - from) =~= digits);
    Some(value)
}

/// Parse the integer `"version"` field out of a metadata.json without a JSON
/// parser. (The quoted-key search cannot match inside the `"shell-version"` key,
/// and a value that reads `"version"` has no colon behind it.)
pub fn metadata_version(metadata_json: &str) -> (r: Option<u64>)
    ensures
        r == version_field(metadata_json@),
{
    let v: Vec<char> = text::chars_of(metadata_json);
    let key: Vec<char> = text::chars_of("\"version\"");
    let n: usize = v.len();
    let mut from: usize = 0;
    proof {
        reveal_strlit("\"version\"");
    }
    while from < n
        invariant
            v@ == metadata_json@,
            key@ == version_key(),
            key@.len() == 9,
            n == v@.len(),
            from <= n,
            forall|j: int| j < from ==> !key_at(v@, j),
        decreases n - from,
    {
        match text::find(&v, &key, from) {
            Some(i) => {
                let after: usize = i + key.len();
                let colon: usize = text::skip_white_space(&v, after, n);
                assert(v@.subrange(after as int, n as int) =~= v@.skip(after as int));
                assert(v@.subrange(colon as int, n as int) =~= v@.skip(colon as int));
                if colon < n && v[colon] == ':' {
                    assert(key_at(v@, i as int));
                    assert(first_key_at(v@, i as int));
                    proof {
                        lemma_first_key_is_one(v@, i as int);
                    }
                    let digits: usize = text::skip_white_space(&v, colon + 1, n);
                    assert(v@.skip(colon as int).skip(1) =~= v@.subrange(colon + 1, n as int));
                    assert(v@.subrange(digits as int, n as int) =~= v@.skip(digits as int));
                    return parse_number(&v, digits);
                }
                assert(!key_at(v@, i as int));
                from = i + 1;
            },
            None => {
                assert forall|j: int| !key_at(v@, j) by {}
                return None;
            },
        }
    }
    assert forall|j: int| !key_at(v@, j) by {}
    None
}

proof fn lemma_embedded_version()
    ensures
        version_field(METADATA_JSON@) == Some(1u64),
{
    reveal_strlit("{\n  \"version\": 1,\n  \"uuid\": \"copycopy@sincekmori.github.io\",\n  \"name\": \"copycopy\",\n  \"description\": \"Hands two copies in quick succession over to applications.\",\n  \"shell-version\": [\"45\", \"46\", \"47\", \"48\", \"49\", \"50\"]\n}\n");
    reveal_strlit("\"version\"");
    let s = METADATA_JSON@;
    let key = version_key();
    assert(s.subrange(4, 13) =~= key);
    assert(text::occurs_at(s, key, 4));
    let rest = s.skip(13);
    assert(rest[0] == ':');
    assert(text::trimmed_start(rest) == rest);
    assert(key_at(s, 4));
    assert forall|j: int| j < 4 implies !key_at(s, j) by {
        if 0 <= j {
            assert(s.subrange(j, j + key.len())[0] == s[j]);
        }
    }
    assert(first_key_at(s, 4));
    lemma_first_key_is_one(s, 4);
    let value = rest.skip(1);
    assert(value[0] == ' ');
    let digits = value.skip(1);
    assert(digits[0] == '1');
    assert(digits[1] == ',');
    assert(text::trimmed_start(digits) == digits);
    assert(text::trimmed_start(value) == digits);
    assert(leading_digits(digits.skip(1)) =~= Seq::empty());
    assert(leading_digits(digits) =~= seq!['1']);
    assert(decimal(Seq::<char>::empty()) == 0);
    assert(seq!['1'].drop_last() =~= Seq::empty());
    assert(decimal(seq!['1']) == 1);
}

/// The version of the embedded extension: the one in its metadata.
pub open spec fn embedded() -> u64 {
    match version_field(METADATA_JSON@) {
        Some(v) => v,
        None => 0,
    }
}

/// The `version` field of the embedded extension's metadata.json.
pub fn embedded_version() -> (r: u64)
    ensures
        r == embedded(),
        version_field(METADATA_JSON@) == Some(r),
        r >= 1,
{
    proof {
        lemma_embedded_version();
    }
    match metadata_version(METADATA_JSON) {
        Some(v) => v,
        None => 0,
    }
}

/// A path with a relative component behind it.
pub open spec fn joined(base: Seq<char>, component: Seq<char>) -> Seq<char> {
    if base.len() == 0 {
        component
    } else if base.last() == '/' {
        base + component
    } else {
        base + "/"@ + component
    }
}

/// The directory of the extension under a data directory.
pub open spec fn extension_dir_in(data_dir: Seq<char>) -> Seq<char> {
    joined(joined(joined(data_dir, "gnome-shell"@), "extensions"@), EXTENSION_UUID@)
}

/// The directory of the extension: under the data directory that is set, unless
/// it is blank, and else under `.local/share` in the home directory.
pub open spec fn extension_dir_of(
    xdg_data_home: Option<Seq<char>>,
    home: Option<Seq<char>>,
) -> Option<Seq<char>> {
    match (xdg_data_home, home) {
        (Some(d), _) if text::trimmed(d).len() > 0 => Some(extension_dir_in(d)),
        (_, Some(h)) => Some(extension_dir_in(joined(joined(h, ".local"@), "share"@))),
        (_, None) => None,
    }
}

/// `base` with a relative component behind it.
pub fn join_path(base: String, component: &str) -> (r: String)
    ensures
        r@ == joined(base@, component@),
{
    let chars: Vec<char> = text::chars_of(base.as_str());
    let n: usize = chars.len();
    if n == 0 || chars[n - 1] == '/' {
        let r: String = base.concat(component);
        assert(n == 0 ==> r@ =~= component@);
        r
    } else {
        base.concat("/").concat(component)
    }
}

/// `~/.local/share/gnome-shell/extensions/<UUID>`, honoring `XDG_DATA_HOME`.
pub fn extension_dir(xdg_data_home: Option<&str>, home: Option<&str>) -> (r: Option<String>)
    ensures
        match extension_dir_of(session::var_view(xdg_data_home), session::var_view(home)) {
            Some(d) => r matches Some(s) && s@ == d,
            None => r is None,
        },
{
    let data_dir: String = match xdg_data_home {
        Some(d) if !text::is_blank(d) => d.to_owned(),
        _ => match home {
            Some(h) => join_path(join_path(h.to_owned(), ".local"), "share"),
            None => {
                return None;
            },
        },
    };
    Some(join_path(join_path(join_path(data_dir, "gnome-shell"), "extensions"), EXTENSION_UUID))
}

/// The extension files must be (re)written: the script is missing, or no version
/// or an older one is installed.
pub open spec fn write_needed(installed: Option<u64>, embedded: u64, js_present: bool) -> bool {
    !js_present || installed is None || installed->0 < embedded
}

/// Whether the extension files must be (re)written.
pub fn needs_write(
    installed_version: Option<u64>,
    embedded: u64,
    extension_js_present: bool,
) -> (r: bool)
    ensures
        r == write_needed(installed_version, embedded, extension_js_present),
{
    !extension_js_present || match installed_version {
        Some(v) => v < embedded,
        None => true,
    }
}

/// How an installation ended.
#[derive(Debug, Clone, Copy, PartialEq, Eq, Structural)]
pub enum InstallState {
    /// The installed copy is already at (or beyond) the embedded version.
    UpToDate,
    /// The extension files were written (fresh install or upgrade). A running
    /// gnome-shell will not pick this up until the user logs out and back in.
    Written,
}

/// How far an installation has come.
pub ghost enum Installing {
    /// The installed metadata is to be read.
    ReadMetadata,
    /// The script is to be looked for; `installed` is the version that was found.
    FindScript { installed: Option<u64> },
    /// The directory is to be created.
    CreateDir,
    /// The script is to be written.
    WriteScript,
    /// The metadata is to be written.
    WriteMetadata,
    /// Done, or failed for the reason given.
    Done(Result<InstallState, Seq<char>>),
}

impl Installing {
    /// The state once the installed metadata has been read; `None` where it
    /// cannot be read.
    pub open spec fn after_metadata(self, metadata: Option<Seq<char>>) -> Installing {
        match self {
            Installing::ReadMetadata => Installing::FindScript {
                installed: match metadata {
                    Some(m) => version_field(m),
                    None => None,
                },
            },
            _ => self,
        }
    }

    /// The state once the script has been looked for.
    pub open spec fn after_script(self, present: bool) -> Installing {
        match self {
            Installing::FindScript { installed } => if write_needed(installed, embedded(), present) {
                Installing::CreateDir
            } else {
                Installing::Done(Ok(InstallState::UpToDate))
            },
            _ => self,
        }
    }

    /// The state once a directory or file has been written to disk, or could not
    /// be for the reason given.
    pub open spec fn after_write(self, dir: Seq<char>, done: Result<(), String>) -> Installing {
        match (self, done) {
            (Installing::CreateDir, Ok(())) => Installing::WriteScript,
            (Installing::CreateDir, Err(e)) => Installing::Done(
                Err("cannot create "@ + dir + ": "@ + e@),
            ),
            (Installing::WriteScript, Ok(())) => Installing::WriteMetadata,
            (Installing::WriteScript, Err(e)) => Installing::Done(
                Err("cannot write extension.js: "@ + e@),
            ),
            (Installing::WriteMetadata, Ok(())) => Installing::Done(Ok(InstallState::Written)),
            (Installing::WriteMetadata, Err(e)) => Installing::Done(
                Err("cannot write metadata.json: "@ + e@),
            ),
            _ => self,
        }
    }

    /// What is to be done next.
    pub open spec fn request(self) -> InstallRequest {
        match self {
            Installing::ReadMetadata => InstallRequest::ReadMetadata,
            Installing::FindScript { .. } => InstallRequest::FindScript,
            Installing::CreateDir => InstallRequest::CreateDir,
            Installing::WriteScript => InstallRequest::WriteScript { text: EXTENSION_JS },
            Installing::WriteMetadata => InstallRequest::WriteMetadata { text: METADATA_JSON },
            Installing::Done(_) => InstallRequest::Finish,
        }
    }
}

/// What an installation needs done next.
#[derive(Debug, Clone, Copy, PartialEq, Eq)]
pub enum InstallRequest {
    /// Read `metadata.json` and report it to [`Installer::on_metadata`].
    ReadMetadata,
    /// Report to [`Installer::on_script`] whether `extension.js` is a file.
    FindScript,
    /// Create the directory and report to [`Installer::on_write`].
    CreateDir,
    /// Write the text to `extension.js` and report to [`Installer::on_write`].
    WriteScript {
        /// The embedded script.
        text: &'static str,
    },
    /// Write the text to `metadata.json` and report to [`Installer::on_write`].
    WriteMetadata {
        /// The embedded metadata.
        text: &'static str,
    },
    /// Nothing more: take the outcome with [`Installer::finish`].
    Finish,
}

enum Stage {
    ReadMetadata,
    FindScript { installed: Option<u64> },
    CreateDir,
    WriteScript,
    WriteMetadata,
    Done(Result<InstallState, String>),
}

/// Writes the extension into a directory when it is missing or outdated.
pub struct Installer {
    dir: String,
    stage: Stage,
}

impl View for Installer {
    type V = Installing;

    closed spec fn view(&self) -> Installing {
        match self.stage {
            Stage::ReadMetadata => Installing::ReadMetadata,
            Stage::FindScript { installed } => Installing::FindScript { installed },
            Stage::CreateDir => Installing::CreateDir,
            Stage::WriteScript => Installing::WriteScript,
            Stage::WriteMetadata => Installing::WriteMetadata,
            Stage::Done(Ok(state)) => Installing::Done(Ok(state)),
            Stage::Done(Err(e)) => Installing::Done(Err(e@)),
        }
    }
}

impl Installer {
    /// The directory of the extension.
    pub closed spec fn dir_text(self) -> Seq<char> {
        self.dir@
    }

    /// An installation into `dir` that has done nothing yet.
    pub fn into_dir(dir: String) -> (r: Installer)
        ensures
            r@ == Installing::ReadMetadata,
            r.dir_text() == dir@,
    {
        Installer { dir, stage: Stage::ReadMetadata }
    }

    /// An installation into the directory that the environment names, or why
    /// there is none.
    pub fn for_user(xdg_data_home: Option<&str>, home: Option<&str>) -> (r: Result<
        Installer,
        String,
    >)
        ensures
            match extension_dir_of(session::var_view(xdg_data_home), session::var_view(home)) {
                Some(d) => r matches Ok(i) && i@ == Installing::ReadMetadata && i.dir_text() == d,
                None => r matches Err(e) && e@
                    == "cannot determine the home directory (HOME is unset)"@,
            },
    {
        match extension_dir(xdg_data_home, home) {
            Some(dir) => Ok(Installer::into_dir(dir)),
            None => Err("cannot determine the home directory (HOME is unset)".to_owned()),
        }
    }

    /// The directory of the extension.
    pub fn dir(&self) -> (r: &str)
        ensures
            r@ == self.dir_text(),
    {
        self.dir.as_str()
    }

    /// What to do next.
    pub fn request(&self) -> (r: InstallRequest)
        ensures
            r == self@.request(),
    {
        match &self.stage {
            Stage::ReadMetadata => InstallRequest::ReadMetadata,
            Stage::FindScript { .. } => InstallRequest::FindScript,
            Stage::CreateDir => InstallRequest::CreateDir,
            Stage::WriteScript => InstallRequest::WriteScript { text: EXTENSION_JS },
            Stage::WriteMetadata => InstallRequest::WriteMetadata { text: METADATA_JSON },
            Stage::Done(_) => InstallRequest::Finish,
        }
    }

    /// Takes the installed metadata; `None` where it cannot be read.
    pub fn on_metadata(self, metadata: Option<&str>) -> (r: Installer)
        ensures
            r@ == self@.after_metadata(session::var_view(metadata)),
            r.dir_text() == self.dir_text(),
    {
        let stage: Stage = match self.stage {
            Stage::ReadMetadata => Stage::FindScript {
                installed: match metadata {
                    Some(m) => metadata_version(m),
                    None => None,
                },
            },
            other => other,
        };
        Installer { dir: self.dir, stage }
    }

    /// Takes whether the script is there.
    pub fn on_script(self, present: bool) -> (r: Installer)
        ensures
            r@ == self@.after_script(present),
            r.dir_text() == self.dir_text(),
    {
        let stage: Stage = match self.stage {
            Stage::FindScript { installed } => if needs_write(
                installed,
                embedded_version(),
                present,
            ) {
                Stage::CreateDir
            } else {
                Stage::Done(Ok(InstallState::UpToDate))
            },
            other => other,
        };
        Installer { dir: self.dir, stage }
    }

    /// Takes how creating the directory or writing a file went.
    pub fn on_write(self, done: Result<(), String>) -> (r: Installer)
        ensures
            r@ == self@.after_write(self.dir_text(), done),
            r.dir_text() == self.dir_text(),
    {
        let dir: String = self.dir;
        let stage: Stage = match self.stage {
            Stage::CreateDir => match done {
                Ok(()) => Stage::WriteScript,
                Err(e) => Stage::Done(
                    Err(
                        "cannot create ".to_owned().concat(dir.as_str()).concat(": ").concat(
                            e.as_str(),
                        ),
                    ),
                ),
            },
            Stage::WriteScript => match done {
                Ok(()) => Stage::WriteMetadata,
                Err(e) => Stage::Done(
                    Err("cannot write extension.js: ".to_owned().concat(e.as_str())),
                ),
            },
            Stage::WriteMetadata => match done {
                Ok(()) => Stage::Done(Ok(InstallState::Written)),
                Err(e) => Stage::Done(
                    Err("cannot write metadata.json: ".to_owned().concat(e.as_str())),
                ),
            },
            other => other,
        };
        Installer { dir, stage }
    }

    /// How the installation ended; `None` while it goes on.
    pub fn finish(self) -> (r: Option<Result<InstallState, String>>)
        ensures
            match self@ {
                Installing::Done(Ok(state)) => r == Some(Ok::<InstallState, String>(state)),
                Installing::Done(Err(e)) => r matches Some(Err(m)) && m@ == e,
                _ => r is None,
            },
    {
        match self.stage {
            Stage::Done(outcome) => Some(outcome),
            _ => None,
        }
    }
}

proof fn lemma_trimmed_start_skips(w: Seq<char>, s: Seq<char>)
    requires
        forall|k: int| 0 <= k < w.len() ==> text::is_white_space(#[trigger] w[k]),
        s.len() == 0 || !text::is_white_space(s[0]),
    ensures
        text::trimmed_start(w + s) == s,
    decreases w.len(),
{
    if w.len() == 0 {
        assert(w + s =~= s);
    } else {
        let rest = w.skip(1);
        assert forall|k: int| 0 <= k < rest.len() implies text::is_white_space(
            #[trigger] rest[k],
        ) by {
            assert(rest[k] == w[k + 1]);
        }
        lemma_trimmed_start_skips(rest, s);
        assert(text::is_white_space(w[0]));
        assert((w + s).skip(1) =~= rest + s);
    }
}

proof fn lemma_leading_digits_are(digits: Seq<char>, tail: Seq<char>)
    requires
        forall|k: int| 0 <= k < digits.len() ==> is_digit(#[trigger] digits[k]),
        tail.len() == 0 || !is_digit(tail[0]),
    ensures
        leading_digits(digits + tail) == digits,
    decreases digits.len(),
{
    if digits.len() == 0 {
        assert(digits + tail =~= tail);
    } else {
        let rest = digits.skip(1);
        assert forall|k: int| 0 <= k < rest.len() implies is_digit(#[trigger] rest[k]) by {
            assert(rest[k] == digits[k + 1]);
        }
        lemma_leading_digits_are(rest, tail);
        assert(is_digit(digits[0]));
        assert((digits + tail).skip(1) =~= rest + tail);
        assert(seq![digits[0]] + rest =~= digits);
    }
}

/// The version is the number behind the first version key, whatever stands
/// around it and however much white space stands at the colon. A value that reads
/// like the key, without a colon behind it, does not count as one. A number that
/// needs more than 64 bits is none.
pub proof fn law_version_is_the_number_behind_its_key(
    front: Seq<char>,
    before_colon: Seq<char>,
    behind_colon: Seq<char>,
    digits: Seq<char>,
    tail: Seq<char>,
)
    requires
        forall|k: int|
            0 <= k < before_colon.len() ==> text::is_white_space(#[trigger] before_colon[k]),
        forall|k: int|
            0 <= k < behind_colon.len() ==> text::is_white_space(#[trigger] behind_colon[k]),
        digits.len() > 0,
        forall|k: int| 0 <= k < digits.len() ==> is_digit(#[trigger] digits[k]),
        tail.len() == 0 || !is_digit(tail[0]),
        forall|j: int|
            j < front.len() ==> !key_at(
                front + version_key() + before_colon + seq![':'] + behind_colon + digits + tail,
                j,
            ),
    ensures
        version_field(
            front + version_key() + before_colon + seq![':'] + behind_colon + digits + tail,
        ) == if decimal(digits) <= u64::MAX {
            Some(decimal(digits) as u64)
        } else {
            None
        },
{
    let key = version_key();
    let s = front + key + before_colon + seq![':'] + behind_colon + digits + tail;
    let i = front.len() as int;
    assert(s.subrange(i, i + key.len()) =~= key);
    assert(text::occurs_at(s, key, i));
    let number_text = digits + tail;
    let value = behind_colon + number_text;
    let colon = seq![':'] + value;
    assert(s.skip(i + key.len()) =~= before_colon + colon);
    lemma_trimmed_start_skips(before_colon, colon);
    assert(key_at(s, i));
    assert(first_key_at(s, i));
    lemma_first_key_is_one(s, i);
    assert(colon.skip(1) =~= value);
    assert(is_digit(digits[0]));
    assert(number_text[0] == digits[0]);
    lemma_trimmed_start_skips(behind_colon, number_text);
    lemma_leading_digits_are(digits, tail);
}

/// A metadata.json without the version key has no version.
pub proof fn law_no_version_key_no_version(s: Seq<char>)
    requires
        !text::occurs(s, version_key()),
    ensures
        version_field(s) is None,
{
    assert forall|i: int| !key_at(s, i) by {}
}

/// What is installed at the embedded version or beyond, with its script, is
/// kept: nothing is written. A missing script, metadata without a version and
/// an older version are written over.
pub proof fn law_install_upgrades_and_never_downgrades(metadata: Option<Seq<char>>, present: bool)
    ensures
        ({
            let installed = match metadata {
                Some(m) => version_field(m),
                None => None,
            };
            let next = Installing::ReadMetadata.after_metadata(metadata).after_script(present);
            &&& present && installed is Some && installed->0 >= embedded() ==> next
                == Installing::Done(Ok(InstallState::UpToDate))
            &&& !present || installed is None || installed->0 < embedded() ==> next
                == Installing::CreateDir
        }),
{
}

/// What the directory of the extension holds.
#[verifier::ext_equal]
pub ghost struct Files {
    /// The text of `extension.js`; none where there is no such file.
    pub script: Option<Seq<char>>,
    /// The text of `metadata.json`; none where it cannot be read.
    pub metadata: Option<Seq<char>>,
}

impl Files {
    /// The version that is installed.
    pub open spec fn version(self) -> Option<u64> {
        match self.metadata {
            Some(m) => version_field(m),
            None => None,
        }
    }

    /// The script is there, and the metadata is at the embedded version or beyond.
    pub open spec fn up_to_date(self) -> bool {
        self.script is Some && self.version() is Some && self.version()->0 >= embedded()
    }

    /// The files hold exactly the embedded texts.
    pub open spec fn embedded() -> Files {
        Files { script: Some(EXTENSION_JS@), metadata: Some(METADATA_JSON@) }
    }
}

/// A moment of an installation: how far it has come, and what the directory holds.
pub ghost struct Moment {
    pub state: Installing,
    pub files: Files,
}

/// What doing the request of one moment leads to in the next. `done` is how
/// creating or writing went. A write that failed may have left anything in its
/// file, and touches no other.
pub open spec fn leads_to(dir: Seq<char>, m: Moment, done: Result<(), String>, next: Moment) -> bool {
    match m.state.request() {
        InstallRequest::ReadMetadata => {
            &&& next.state == m.state.after_metadata(m.files.metadata)
            &&& next.files == m.files
        },
        InstallRequest::FindScript => {
            &&& next.state == m.state.after_script(m.files.script is Some)
            &&& next.files == m.files
        },
        InstallRequest::CreateDir => {
            &&& next.state == m.state.after_write(dir, done)
            &&& next.files == m.files
        },
        InstallRequest::WriteScript { text } => {
            &&& next.state == m.state.after_write(dir, done)
            &&& next.files.metadata == m.files.metadata
            &&& done is Ok ==> next.files.script == Some(text@)
        },
        InstallRequest::WriteMetadata { text } => {
            &&& next.state == m.state.after_write(dir, done)
            &&& next.files.script == m.files.script
            &&& done is Ok ==> next.files.metadata == Some(text@)
        },
        InstallRequest::Finish => next == m,
    }
}

/// `run` is an installation into `dir`, from its start on: each moment leads to
/// the next, with creating and writing going as `done` says.
pub open spec fn is_install(dir: Seq<char>, run: Seq<Moment>, done: Seq<Result<(), String>>) -> bool {
    &&& run.len() > 0
    &&& run.len() == done.len() + 1
    &&& run[0].state == Installing::ReadMetadata
    &&& forall|k: int| 0 <= k < done.len() ==> #[trigger] leads_to(dir, run[k], done[k], run[k + 1])
}

/// What is known of a moment of an installation that found `found`.
spec fn consistent(found: Files, m: Moment) -> bool {
    match m.state {
        Installing::ReadMetadata => m.files == found,
        Installing::FindScript { installed } => m.files == found && installed == found.version(),
        Installing::CreateDir => m.files == found && !found.up_to_date(),
        Installing::WriteScript => m.files == found && !found.up_to_date(),
        Installing::WriteMetadata => m.files.script == Some(EXTENSION_JS@) && !found.up_to_date(),
        Installing::Done(Ok(InstallState::UpToDate)) => m.files == found && found.up_to_date(),
        Installing::Done(Ok(InstallState::Written)) => m.files == Files::embedded()
            && !found.up_to_date(),
        Installing::Done(Err(_)) => !found.up_to_date(),
    }
}

proof fn lemma_install_is_consistent(
    dir: Seq<char>,
    run: Seq<Moment>,
    done: Seq<Result<(), String>>,
    k: int,
)
    requires
        is_install(dir, run, done),
        0 <= k < run.len(),
    ensures
        consistent(run[0].files, run[k]),
    decreases k,
{
    if k > 0 {
        lemma_install_is_consistent(dir, run, done, k - 1);
        assert(leads_to(dir, run[k - 1], done[k - 1], run[k - 1 + 1]));
    }
}

/// How an installation over a directory ends. Where the directory was up to date,
/// it is found so and no file changes at any time. Otherwise, once it has ended
/// well, both files hold exactly the embedded texts. Either way the directory is
/// then up to date.
pub proof fn law_install_makes_the_directory_up_to_date(
    dir: Seq<char>,
    run: Seq<Moment>,
    done: Seq<Result<(), String>>,
)
    requires
        is_install(dir, run, done),
    ensures
        run.last().state is Done && run[0].files.up_to_date() ==> run.last().state
            == Installing::Done(Ok(InstallState::UpToDate)),
        run[0].files.up_to_date() ==> forall|k: int|
            0 <= k < run.len() ==> (#[trigger] run[k]).files == run[0].files,
        run.last().state == Installing::Done(Ok(InstallState::UpToDate)) ==> run[0].files.up_to_date()
            && run.last().files == run[0].files,
        run.last().state == Installing::Done(Ok(InstallState::Written))
            ==> !run[0].files.up_to_date() && run.last().files == Files::embedded(),
        run.last().state matches Installing::Done(Ok(_)) ==> run.last().files.up_to_date(),
{
    lemma_embedded_version();
    lemma_install_is_consistent(dir, run, done, run.len() - 1);
    assert forall|k: int| 0 <= k < run.len() && run[0].files.up_to_date() implies (
    #[trigger] run[k]).files == run[0].files by {
        lemma_install_is_consistent(dir, run, done, k);
    }
}

/// An installation behind one that ended well finds the directory up to date,
/// reports so and changes nothing.
pub proof fn law_second_install_changes_nothing(
    dir: Seq<char>,
    first: Seq<Moment>,
    first_done: Seq<Result<(), String>>,
    second: Seq<Moment>,
    second_done: Seq<Result<(), String>>,
)
    requires
        is_install(dir, first, first_done),
        first.last().state matches Installing::Done(Ok(_)),
        is_install(dir, second, second_done),
        second[0].files == first.last().files,
    ensures
        forall|k: int|
            0 <= k < second.len() ==> (#[trigger] second[k]).files == first.last().files,
        second.last().state is Done ==> second.last().state == Installing::Done(
            Ok(InstallState::UpToDate),
        ),
{
    law_install_makes_the_directory_up_to_date(dir, first, first_done);
    law_install_makes_the_directory_up_to_date(dir, second, second_done);
}

/// The steps that an installation has behind it, or more.
spec fn progress(state: Installing) -> nat {
    match state {
        Installing::ReadMetadata => 0,
        Installing::FindScript { .. } => 1,
        Installing::CreateDir => 2,
        Installing::WriteScript => 3,
        Installing::WriteMetadata => 4,
        Installing::Done(_) => 5,
    }
}

proof fn lemma_install_goes_on(
    dir: Seq<char>,
    run: Seq<Moment>,
    done: Seq<Result<(), String>>,
    k: int,
)
    requires
        is_install(dir, run, done),
        0 <= k < run.len(),
    ensures
        progress(run[k].state) >= k || run[k].state is Done,
        (forall|j: int| 0 <= j < done.len() ==> #[trigger] done[j] is Ok) ==> !(run[k].state matches
            Installing::Done(Err(_))),
    decreases k,
{
    if k > 0 {
        lemma_install_goes_on(dir, run, done, k - 1);
        assert(leads_to(dir, run[k - 1], done[k - 1], run[k - 1 + 1]));
    }
}

/// An installation ends after at most five requests, and it ends well where
/// creating the directory and writing the files do.
pub proof fn law_install_ends(dir: Seq<char>, run: Seq<Moment>, done: Seq<Result<(), String>>)
    requires
        is_install(dir, run, done),
        done.len() >= 5,
    ensures
        run.last().state is Done,
        (forall|k: int| 0 <= k < done.len() ==> #[trigger] done[k] is Ok) ==> run.last().state matches
            Installing::Done(Ok(_)),
{
    lemma_install_goes_on(dir, run, done, run.len() - 1);
}

/// The metadata, by which an installation is recognised, is written last: only
/// once the directory is there and the script has been written. When writing
/// fails on the way, nothing more is written and the installation fails.
pub proof fn law_metadata_is_written_last(
    state: Installing,
    metadata: Option<Seq<char>>,
    present: bool,
    dir: Seq<char>,
    done: Result<(), String>,
)
    ensures
        !(state.after_metadata(metadata).request() is WriteMetadata) || state
            == Installing::WriteMetadata,
        !(state.after_script(present).request() is WriteMetadata) || state
            == Installing::WriteMetadata,
        state.after_write(dir, done) == Installing::WriteMetadata ==> state
            == Installing::WriteScript && done is Ok,
        state.after_write(dir, done) == Installing::WriteScript ==> state == Installing::CreateDir
            && done is Ok,
        done is Err && (state is CreateDir || state is WriteScript || state is WriteMetadata)
            ==> state.after_write(dir, done) matches Installing::Done(Err(_)),
        Installing::CreateDir.after_write(dir, Ok(())).after_write(dir, Ok(())).after_write(
            dir,
            Ok(()),
        ) == Installing::Done(Ok(InstallState::Written)),
{
}

/// Without a data directory that is set and not blank, the extension stands
/// under `.local/share` in the home directory, without one of either nowhere.
pub proof fn law_extension_stands_in_the_home_directory(
    xdg_data_home: Option<Seq<char>>,
    home: Seq<char>,
)
    requires
        xdg_data_home matches Some(d) ==> text::trimmed(d).len() == 0,
        home.len() > 0,
        home.last() != '/',
    ensures
        extension_dir_of(xdg_data_home, Some(home)) == Some(
            home + "/.local/share/gnome-shell/extensions/"@ + EXTENSION_UUID@,
        ),
        extension_dir_of(xdg_data_home, None) is None,
{
    reveal_strlit("/");
    reveal_strlit(".local");
    reveal_strlit("share");
    reveal_strlit("gnome-shell");
    reveal_strlit("extensions");
    reveal_strlit("/.local/share/gnome-shell/extensions/");
    let local = joined(home, ".local"@);
    let share = joined(local, "share"@);
    let shell = joined(share, "gnome-shell"@);
    let extensions = joined(shell, "extensions"@);
    assert(local == home + "/"@ + ".local"@);
    assert(local.last() == 'l');
    assert(share.last() == 'e');
    assert(shell.last() == 'l');
    assert(extensions.last() == 's');
    assert(extensions + "/"@ =~= home + "/.local/share/gnome-shell/extensions/"@);
}

/// A data directory that is set and not blank comes before the home directory.
pub proof fn law_data_directory_comes_first(data_home: Seq<char>, home: Option<Seq<char>>)
    requires
        text::trimmed(data_home).len() > 0,
        data_home.last() != '/',
    ensures
        extension_dir_of(Some(data_home), home) == Some(
            data_home + "/gnome-shell/extensions/"@ + EXTENSION_UUID@,
        ),
{
    reveal_strlit("/");
    reveal_strlit("gnome-shell");
    reveal_strlit("extensions");
    reveal_strlit("/gnome-shell/extensions/");
    if data_home.len() == 0 {
        assert(text::trimmed(data_home).len() == 0);
    }
    let shell = joined(data_home, "gnome-shell"@);
    let extensions = joined(shell, "extensions"@);
    assert(shell == data_home + "/"@ + "gnome-shell"@);
    assert(shell.last() == 'l');
    assert(extensions.last() == 's');
    assert(extensions + "/"@ =~= data_home + "/gnome-shell/extensions/"@);
}

/// A colon stands in `s` from position `from` on, with nothing but white space
/// before it.
pub open spec fn colon_follows(s: Seq<char>, from: int) -> bool {
    exists|m: int|
        from <= m < s.len() && #[trigger] s[m] == ':' && text::all_white(s.subrange(from, m))
}

/// A version key is the word `"version"` in double quotes with a colon behind it,
/// white space aside, wherever it stands.
pub proof fn law_key_is_the_quoted_word_with_a_colon(s: Seq<char>, i: int)
    ensures
        key_at(s, i) <==> text::occurs_at(s, "\"version\""@, i) && colon_follows(s, i + 9),
{
    reveal_strlit("\"version\"");
    if text::occurs_at(s, version_key(), i) {
        let rest = s.skip(i + 9);
        let (front, t) = text::lemma_trimmed_start_parts(rest);
        if t.len() > 0 && t[0] == ':' {
            let m = i + 9 + front.len();
            assert(s[m] == rest[front.len() as int]);
            assert(s.subrange(i + 9, m) =~= front);
        }
        if colon_follows(s, i + 9) {
            let m = choose|m: int|
                i + 9 <= m < s.len() && #[trigger] s[m] == ':' && text::all_white(
                    s.subrange(i + 9, m),
                );
            let w = s.subrange(i + 9, m);
            let tail = s.skip(m);
            assert(rest =~= w + tail);
            assert(tail[0] == ':');
            lemma_trimmed_start_skips(w, tail);
        }
    }
}

/// Without a version key that a colon follows there is no version, and neither is
/// there one where no digit follows the first key's colon, white space aside.
pub proof fn law_no_number_no_version(
    s: Seq<char>,
    front: Seq<char>,
    before_colon: Seq<char>,
    behind_colon: Seq<char>,
    tail: Seq<char>,
)
    requires
        text::all_white(before_colon),
        text::all_white(behind_colon),
        tail.len() == 0 || !(text::is_white_space(tail[0]) || '0' <= tail[0] <= '9'),
    ensures
        (forall|i: int| !(text::occurs_at(s, "\"version\""@, i) && #[trigger] colon_follows(s, i + 9)))
            ==> version_field(s) is None,
        (forall|j: int|
            j < front.len() ==> !key_at(
                front + version_key() + before_colon + seq![':'] + behind_colon + tail,
                j,
            )) ==> version_field(
            front + version_key() + before_colon + seq![':'] + behind_colon + tail,
        ) is None,
{
    if forall|i: int| !(text::occurs_at(s, "\"version\""@, i) && #[trigger] colon_follows(s, i + 9)) {
        assert forall|i: int| !key_at(s, i) by {
            law_key_is_the_quoted_word_with_a_colon(s, i);
            assert(!(text::occurs_at(s, "\"version\""@, i) && colon_follows(s, i + 9)));
        }
    }
    let key = version_key();
    let t = front + key + before_colon + seq![':'] + behind_colon + tail;
    let i = front.len() as int;
    if forall|j: int| j < front.len() ==> !key_at(t, j) {
        assert(t.subrange(i, i + key.len()) =~= key);
        let value = behind_colon + tail;
        let colon = seq![':'] + value;
        assert(t.skip(i + key.len()) =~= before_colon + colon);
        lemma_trimmed_start_skips(before_colon, colon);
        assert(key_at(t, i));
        assert(first_key_at(t, i));
        lemma_first_key_is_one(t, i);
        assert(colon.skip(1) =~= value);
        lemma_trimmed_start_skips(behind_colon, tail);
        assert(leading_digits(tail) =~= Seq::empty());
    }
}

/// A number in digits counts as digits do: one more digit behind is ten times the
/// number and that digit.
pub proof fn law_digits_count_as_digits_do(digits: Seq<char>, digit: char)
    requires
        '0' <= digit <= '9',
    ensures
        decimal(seq![]) == 0,
        decimal(digits.push(digit)) == decimal(digits) * 10 + (digit as u32 - 0x30),
{
    assert(digits.push(digit).drop_last() =~= digits);
}

/// A component goes behind a path with one slash between them, none where the path
/// ends with one, and alone where the path is empty.
pub proof fn law_one_slash_between_components(base: Seq<char>, component: Seq<char>)
    ensures
        joined(seq![], component) == component,
        joined(base.push('/'), component) == base.push('/') + component,
        base.len() > 0 && base.last() != '/' ==> joined(base, component) == base.push('/')
            + component,
{
    reveal_strlit("/");
    if base.len() > 0 && base.last() != '/' {
        assert(joined(base, component) =~= base.push('/') + component);
    }
}

/// With a data directory or a home directory that ends with a slash the extension
/// stands there too, without a second slash.
pub proof fn law_trailing_slash_is_not_doubled(base: Seq<char>, home: Option<Seq<char>>)
    ensures
        !text::all_white(base.push('/')) && extension_dir_of(Some(base.push('/')), home) == Some(
            base.push('/') + "gnome-shell/extensions/"@ + EXTENSION_UUID@,
        ),
        extension_dir_of(None, Some(base.push('/'))) == Some(
            base.push('/') + ".local/share/gnome-shell/extensions/"@ + EXTENSION_UUID@,
        ),
{
    reveal_strlit("/");
    reveal_strlit(".local");
    reveal_strlit("share");
    reveal_strlit("gnome-shell");
    reveal_strlit("extensions");
    reveal_strlit("gnome-shell/extensions/");
    reveal_strlit(".local/share/gnome-shell/extensions/");
    let dir = base.push('/');
    assert(!text::is_white_space(dir[dir.len() - 1]));
    text::law_only_white_space_trims_to_nothing(dir);
    let shell = joined(dir, "gnome-shell"@);
    let extensions = joined(shell, "extensions"@);
    assert(shell.last() == 'l');
    assert(extensions.last() == 's');
    assert(extensions + "/"@ =~= dir + "gnome-shell/extensions/"@);
    let local = joined(dir, ".local"@);
    let share = joined(local, "share"@);
    let home_shell = joined(share, "gnome-shell"@);
    let home_extensions = joined(home_shell, "extensions"@);
    assert(local.last() == 'l');
    assert(share.last() == 'e');
    assert(home_shell.last() == 'l');
    assert(home_extensions.last() == 's');
    assert(home_extensions + "/"@ =~= dir + ".local/share/gnome-shell/extensions/"@);
}

/// The files are written exactly where the script is missing, no version is
/// installed, or the installed one is lower than the embedded one.
pub proof fn law_lower_version_is_written_over(installed: u64, embedded: u64, present: bool)
    ensures
        write_needed(None, embedded, present),
        write_needed(Some(installed), embedded, false),
        write_needed(Some(installed), embedded, true) <==> installed < embedded,
{
}

/// The embedded version is the one that the embedded metadata states.
pub proof fn law_embedded_version_is_stated_by_the_metadata()
    ensures
        version_field(METADATA_JSON@) == Some(embedded()),
        embedded() >= 1,
{
    lemma_embedded_version();
}

/// A failure is reported with what failed, where, and why, in full; and once an
/// installation is over nothing changes that.
pub proof fn law_failed_step_is_reported_in_full(
    dir: Seq<char>,
    why: String,
    outcome: Result<InstallState, Seq<char>>,
    done: Result<(), String>,
    metadata: Option<Seq<char>>,
    present: bool,
)
    ensures
        Installing::CreateDir.after_write(dir, Err(why)) == Installing::Done(
            Err("cannot create "@ + dir + ": "@ + why@),
        ),
        Installing::WriteScript.after_write(dir, Err(why)) == Installing::Done(
            Err("cannot write extension.js: "@ + why@),
        ),
        Installing::WriteMetadata.after_write(dir, Err(why)) == Installing::Done(
            Err("cannot write metadata.json: "@ + why@),
        ),
        Installing::Done(outcome).after_write(dir, done) == Installing::Done(outcome),
        Installing::Done(outcome).after_script(present) == Installing::Done(outcome),
        Installing::Done(outcome).after_metadata(metadata) == Installing::Done(outcome),
        Installing::Done(outcome).request() is Finish,
{
}

} // verus!
