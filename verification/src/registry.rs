//! The registry of projects: registration by canonical path, removal, the
//! last-opened time, and the rules for names of new project folders.

use vstd::prelude::*;
use crate::text::{
    chars_of, ends_with, is_blank, is_blank_exec, lit, lower_text, push_str, string_of, to_lowercase,
    trim, trim_chars,
};
use crate::models::{registry_views, RegistryData, RegistryEntry, RegistryEntryModel, UnixMicros};
use crate::subagent_settings::{file_views, generated, GeneratedSubagentFile, SubagentSettings};

verus! {

/// Why a registry operation was refused.
#[derive(Clone, Debug)]
pub enum RegistryError {
    InvalidDirectory(String),
    Io(String),
    Json(String),
    UnsupportedVersion(u8),
    InvalidProjectName(String),
    ProjectAlreadyExists(String),
    Git(String),
    SubagentSettings(String),
}

impl RegistryError {
    /// The text a user sees for the error.
    pub fn message(&self) -> (r: String)
        ensures
            r@ == match self {
                RegistryError::InvalidDirectory(m) => "Project directory does not exist or cannot be accessed: "@ + m@,
                RegistryError::Io(m) => "Unable to read or write the project registry: "@ + m@,
                RegistryError::Json(m) => "The project registry is invalid: "@ + m@,
                RegistryError::UnsupportedVersion(v) => "Unsupported project registry version: "@ + crate::text::decimal(*v as nat),
                RegistryError::InvalidProjectName(m) => "Project name is invalid: "@ + m@,
                RegistryError::ProjectAlreadyExists(m) => "A file or folder already exists at the new project path: "@ + m@,
                RegistryError::Git(m) => "Unable to initialize the Git repository: "@ + m@,
                RegistryError::SubagentSettings(m) => "Unable to generate the project's subagent configuration: "@ + m@,
            },
    {
        let mut out = match self {
            RegistryError::InvalidDirectory(_) => lit("Project directory does not exist or cannot be accessed: "),
            RegistryError::Io(_) => lit("Unable to read or write the project registry: "),
            RegistryError::Json(_) => lit("The project registry is invalid: "),
            RegistryError::UnsupportedVersion(_) => lit("Unsupported project registry version: "),
            RegistryError::InvalidProjectName(_) => lit("Project name is invalid: "),
            RegistryError::ProjectAlreadyExists(_) => lit("A file or folder already exists at the new project path: "),
            RegistryError::Git(_) => lit("Unable to initialize the Git repository: "),
            RegistryError::SubagentSettings(_) => lit("Unable to generate the project's subagent configuration: "),
        };
        match self {
            RegistryError::UnsupportedVersion(v) => {
                crate::text::push_all(&mut out, &crate::text::decimal_exec(*v as u64));
            },
            RegistryError::InvalidDirectory(m) | RegistryError::Io(m) | RegistryError::Json(m)
            | RegistryError::InvalidProjectName(m) | RegistryError::ProjectAlreadyExists(m)
            | RegistryError::Git(m) | RegistryError::SubagentSettings(m) => {
                push_str(&mut out, m.as_str());
            },
        }
        string_of(&out)
    }
}

// ---------------------------------------------------------------------------
// Project names

/// `char::is_control`: the C0 and C1 control characters.
pub open spec fn is_control(c: char) -> bool {
    ('\u{0}' <= c && c <= '\u{1f}') || ('\u{7f}' <= c && c <= '\u{9f}')
}

/// Characters that a project folder name may not hold.
pub open spec fn forbidden_in_name(c: char) -> bool {
    is_control(c) || c == '<' || c == '>' || c == ':' || c == '"' || c == '/' || c == '\\' || c == '|'
        || c == '?' || c == '*'
}

/// The part of the name before its first `.`.
pub open spec fn name_stem(name: Seq<char>) -> Seq<char> {
    let k = crate::text::find_char(name, '.');
    if k < 0 {
        name
    } else {
        name.subrange(0, k)
    }
}

/// Device names that Windows reserves: CON, PRN, AUX, NUL, COM1-9 and LPT1-9,
/// in any case, before any extension.
pub open spec fn reserved_stem(stem: Seq<char>) -> bool {
    let u = crate::text::ascii_upper(stem);
    ||| u == "CON"@
    ||| u == "PRN"@
    ||| u == "AUX"@
    ||| u == "NUL"@
    ||| u.len() == 4 && (crate::text::starts_with(u, "COM"@) || crate::text::starts_with(u, "LPT"@))
        && '1' <= u[3] && u[3] <= '9'
}

pub open spec fn unsafe_name_message() -> Seq<char> {
    "Use a folder name without path separators, control characters, or Windows-reserved punctuation"@
}

pub open spec fn reserved_name_message() -> Seq<char> {
    "That name is reserved by Windows"@
}

/// The trimmed name a new project folder receives, or why it is refused.
pub open spec fn project_name_outcome(raw: Seq<char>) -> Result<Seq<char>, Seq<char>> {
    let name = trim(raw);
    if name.len() == 0 || name == "."@ || name == ".."@ || ends_with(name, "."@)
        || exists|i: int| 0 <= i < name.len() && forbidden_in_name(#[trigger] name[i])
    {
        Err(unsafe_name_message())
    } else if reserved_stem(name_stem(name)) {
        Err(reserved_name_message())
    } else {
        Ok(name)
    }
}

fn has_forbidden(name: &[char]) -> (r: bool)
    ensures
        r == exists|i: int| 0 <= i < name@.len() && forbidden_in_name(#[trigger] name@[i]),
{
    let mut i: usize = 0;
    while i < name.len()
        invariant
            i <= name@.len(),
            forall|j: int| 0 <= j < i ==> !forbidden_in_name(#[trigger] name@[j]),
        decreases name@.len() - i,
    {
        let c = name[i];
        if ('\u{0}' <= c && c <= '\u{1f}') || ('\u{7f}' <= c && c <= '\u{9f}') || c == '<' || c == '>' || c == ':'
            || c == '"' || c == '/' || c == '\\' || c == '|' || c == '?' || c == '*'
        {
            assert(forbidden_in_name(name@[i as int]));
            return true;
        }
        i += 1;
    }
    false
}

fn ascii_upper_exec(s: &[char]) -> (r: Vec<char>)
    ensures
        r@ == crate::text::ascii_upper(s@),
{
    let mut out: Vec<char> = Vec::new();
    let mut i: usize = 0;
    while i < s.len()
        invariant
            i <= s@.len(),
            out@ =~= crate::text::ascii_upper(s@.subrange(0, i as int)),
        decreases s@.len() - i,
    {
        let c = s[i];
        let u = if 'a' <= c && c <= 'z' { ((c as u8) - 32) as char } else { c };
        out.push(u);
        i += 1;
    }
    assert(s@.subrange(0, s@.len() as int) == s@);
    out
}

fn is_reserved_stem(stem: &[char]) -> (r: bool)
    ensures
        r == reserved_stem(stem@),
{
    let u = ascii_upper_exec(stem);
    proof {
        reveal_strlit("CON");
        reveal_strlit("PRN");
        reveal_strlit("AUX");
        reveal_strlit("NUL");
        reveal_strlit("COM");
        reveal_strlit("LPT");
    }
    if crate::text::str_eq(&u, "CON") || crate::text::str_eq(&u, "PRN") || crate::text::str_eq(&u, "AUX")
        || crate::text::str_eq(&u, "NUL")
    {
        return true;
    }
    u.len() == 4 && (crate::text::has_prefix(&u, "COM") || crate::text::has_prefix(&u, "LPT")) && '1' <= u[3]
        && u[3] <= '9'
}

/// The README a new project starts with.
pub open spec fn readme_text(name: Seq<char>) -> Seq<char> {
    "# "@ + name + "\n\nDescribe the project here.\n"@
}

/// The files a new project is created with, in the order they are written:
/// the README, the generated agent files, and empty `TODO.md` and
/// `WORK_HISTORY.md`.
pub fn project_scaffold(name: &str, settings: &SubagentSettings) -> (r: Result<Vec<GeneratedSubagentFile>, RegistryError>)
    ensures
        match generated(*settings, name@) {
            None => r matches Err(e) && e is SubagentSettings,
            Some(files) => r matches Ok(out) && file_views(out@) == seq![("README.md"@, readme_text(name@))] + files
                + seq![("TODO.md"@, Seq::<char>::empty()), ("WORK_HISTORY.md"@, Seq::<char>::empty())],
        },
{
    let generated_files = match settings.generated_files(name) {
        Ok(files) => files,
        Err(e) => {
            return Err(RegistryError::SubagentSettings(e.message()));
        },
    };
    let mut readme = lit("# ");
    push_str(&mut readme, name);
    push_str(&mut readme, "\n\nDescribe the project here.\n");
    let mut out: Vec<GeneratedSubagentFile> = Vec::new();
    out.push(GeneratedSubagentFile { path: String::from_str("README.md"), content: string_of(&readme) });
    proof {
        reveal_strlit("# ");
        reveal_strlit("\n\nDescribe the project here.\n");
        reveal_strlit("README.md");
    }
    assert(readme@ == readme_text(name@));
    let ghost head = file_views(out@);
    assert(head =~= seq![("README.md"@, readme_text(name@))]);
    let mut k: usize = 0;
    while k < generated_files.len()
        invariant
            k <= generated_files@.len(),
            file_views(out@) == head + file_views(generated_files@).subrange(0, k as int),
        decreases generated_files@.len() - k,
    {
        let ghost before = file_views(out@);
        out.push(GeneratedSubagentFile {
            path: generated_files[k].path.clone(),
            content: generated_files[k].content.clone(),
        });
        assert(file_views(out@) =~= before.push(file_views(generated_files@)[k as int]));
        assert(file_views(out@) =~= head + file_views(generated_files@).subrange(0, k + 1));
        k += 1;
    }
    let ghost mid = file_views(out@);
    assert(file_views(generated_files@).subrange(0, generated_files@.len() as int) =~= file_views(generated_files@));
    out.push(GeneratedSubagentFile { path: String::from_str("TODO.md"), content: String::new() });
    out.push(GeneratedSubagentFile { path: String::from_str("WORK_HISTORY.md"), content: String::new() });
    assert(file_views(out@) =~= mid.push(("TODO.md"@, Seq::<char>::empty())).push(("WORK_HISTORY.md"@, Seq::<char>::empty())));
    assert(file_views(out@) =~= seq![("README.md"@, readme_text(name@))] + file_views(generated_files@)
        + seq![("TODO.md"@, Seq::<char>::empty()), ("WORK_HISTORY.md"@, Seq::<char>::empty())]);
    Ok(out)
}

/// `validate_project_name`: the trimmed name, unless it could escape the
/// parent folder, holds forbidden characters, or is reserved by Windows.
pub fn validate_project_name(raw_name: &str) -> (r: Result<String, RegistryError>)
    ensures
        match r {
            Ok(name) => project_name_outcome(raw_name@) == Ok::<Seq<char>, Seq<char>>(name@),
            Err(e) => project_name_outcome(raw_name@) is Err && e is InvalidProjectName
                && e->InvalidProjectName_0@ == project_name_outcome(raw_name@)->Err_0,
        },
{
    let name = trim_chars(&chars_of(raw_name));
    proof {
        reveal_strlit(".");
        reveal_strlit("..");
    }
    if name.len() == 0 || crate::text::str_eq(&name, ".") || crate::text::str_eq(&name, "..")
        || crate::text::has_suffix(&name, ".") || has_forbidden(&name)
    {
        return Err(RegistryError::InvalidProjectName(String::from_str(
            "Use a folder name without path separators, control characters, or Windows-reserved punctuation",
        )));
    }
    proof {
        crate::text::lemma_find_char_from(name@, '.', 0);
    }
    let stem = match crate::text::find_char_exec(&name, '.') {
        Some(k) => crate::text::copy_range(&name, 0, k),
        None => name.clone(),
    };
    if is_reserved_stem(&stem) {
        return Err(RegistryError::InvalidProjectName(String::from_str("That name is reserved by Windows")));
    }
    Ok(string_of(&name))
}

// ---------------------------------------------------------------------------
// The registry

/// How two project paths are compared: case-insensitively where the file
/// system is (Windows).
pub open spec fn path_key(path: Seq<char>, fold_case: bool) -> Seq<char> {
    if fold_case {
        lower_text(path)
    } else {
        path
    }
}

/// `path_key`.
pub fn path_key_exec(path: &str, fold_case: bool) -> (r: Vec<char>)
    ensures
        r@ == path_key(path@, fold_case),
{
    let v = chars_of(path);
    if fold_case {
        to_lowercase(&v)
    } else {
        v
    }
}

/// The first entry, from `i` on, whose path has the key `key`.
pub open spec fn index_of_path(es: Seq<RegistryEntryModel>, key: Seq<char>, fold_case: bool, i: int) -> Option<int>
    decreases es.len() - i,
{
    if i < 0 || i >= es.len() {
        None
    } else if path_key(es[i].path, fold_case) == key {
        Some(i)
    } else {
        index_of_path(es, key, fold_case, i + 1)
    }
}

/// The first entry, from `i` on, with the project ID `id`.
pub open spec fn index_of_project(es: Seq<RegistryEntryModel>, id: u128, i: int) -> Option<int>
    decreases es.len() - i,
{
    if i < 0 || i >= es.len() {
        None
    } else if es[i].id == id {
        Some(i)
    } else {
        index_of_project(es, id, i + 1)
    }
}

pub open spec fn opt_text(o: Option<&str>) -> Option<Seq<char>> {
    match o {
        Some(n) => Some(n@),
        None => None,
    }
}

/// A project's display name: its folder name, or the whole path where the
/// folder name is missing or blank.
pub open spec fn project_name(path: Seq<char>, file_name: Option<Seq<char>>) -> Seq<char> {
    match file_name {
        Some(n) if !is_blank(n) => n,
        _ => path,
    }
}

/// Registering a canonical path: the entries afterwards and the entry for
/// the path, which is the existing one where the path is already registered.
pub open spec fn registered(
    es: Seq<RegistryEntryModel>,
    path: Seq<char>,
    file_name: Option<Seq<char>>,
    fold_case: bool,
    id: u128,
    now: UnixMicros,
) -> (Seq<RegistryEntryModel>, RegistryEntryModel) {
    match index_of_path(es, path_key(path, fold_case), fold_case, 0) {
        Some(k) => (es, es[k]),
        None => {
            let e = RegistryEntryModel {
                id,
                name: project_name(path, file_name),
                path,
                registered_at: now,
                last_opened: None,
            };
            (es.push(e), e)
        },
    }
}

/// The entry opened at `now`.
pub open spec fn touched(e: RegistryEntryModel, now: UnixMicros) -> RegistryEntryModel {
    RegistryEntryModel { last_opened: Some(now), ..e }
}

/// A fresh random project ID (`Uuid::new_v4`); nothing is claimed of its value.
#[verifier::external_body]
fn fresh_project_id() -> (r: u128) {
    uuid::Uuid::new_v4().as_u128()
}

/// The current time (`chrono::Utc::now`) in microseconds since the epoch;
/// nothing is claimed of its value.
#[verifier::external_body]
pub(crate) fn utc_now_micros() -> (r: UnixMicros) {
    chrono::Utc::now().timestamp_micros()
}

/// The registered projects.
pub struct RegistryStore {
    data: RegistryData,
}

impl RegistryStore {
    pub closed spec fn spec_entries(&self) -> Seq<RegistryEntryModel> {
        registry_views(self.data.projects@)
    }

    /// A store over loaded registry data, which must be of version 1.
    pub fn from_data(data: RegistryData) -> (r: Result<RegistryStore, RegistryError>)
        ensures
            data.version != 1 <==> r is Err,
            r is Err ==> r->Err_0 == RegistryError::UnsupportedVersion(data.version),
            r is Ok ==> r->Ok_0.spec_entries() == registry_views(data.projects@),
    {
        if data.version != 1 {
            return Err(RegistryError::UnsupportedVersion(data.version));
        }
        Ok(RegistryStore { data })
    }

    /// The data to persist.
    pub fn data(&self) -> (r: &RegistryData)
        ensures
            registry_views(r.projects@) == self.spec_entries(),
    {
        &self.data
    }

    /// `entries`: the registered projects in registration order.
    pub fn entries(&self) -> (r: &[RegistryEntry])
        ensures
            registry_views(r@) == self.spec_entries(),
    {
        self.data.projects.as_slice()
    }

    /// `find`: the entry with this project ID.
    pub fn find(&self, id: u128) -> (r: Option<&RegistryEntry>)
        ensures
            match r {
                Some(e) => index_of_project(self.spec_entries(), id, 0) matches Some(k) && e@ == self.spec_entries()[k],
                None => index_of_project(self.spec_entries(), id, 0) is None,
            },
    {
        let ghost es = self.spec_entries();
        let mut i: usize = 0;
        while i < self.data.projects.len()
            invariant
                i <= self.data.projects@.len(),
                es == registry_views(self.data.projects@),
                index_of_project(es, id, i as int) == index_of_project(es, id, 0),
            decreases self.data.projects@.len() - i,
        {
            assert(es[i as int] == self.data.projects@[i as int]@);
            if self.data.projects[i].id == id {
                return Some(&self.data.projects[i]);
            }
            i += 1;
        }
        None
    }

    /// `register` for a canonical directory path, with the ID and time a new
    /// entry receives given; an already registered path yields its entry.
    pub fn register_with(
        &mut self,
        path: &str,
        file_name: Option<&str>,
        fold_case: bool,
        id: u128,
        now: UnixMicros,
    ) -> (r: RegistryEntry)
        ensures
            ({
                let (es, e) = registered(old(self).spec_entries(), path@, opt_text(file_name), fold_case, id, now);
                final(self).spec_entries() == es && r@ == e
            }),
    {
        let ghost es = self.spec_entries();
        let key = path_key_exec(path, fold_case);
        let mut i: usize = 0;
        while i < self.data.projects.len()
            invariant
                i <= self.data.projects@.len(),
                es == registry_views(self.data.projects@),
                key@ == path_key(path@, fold_case),
                index_of_path(es, key@, fold_case, i as int) == index_of_path(es, key@, fold_case, 0),
            decreases self.data.projects@.len() - i,
        {
            assert(es[i as int] == self.data.projects@[i as int]@);
            let k = path_key_exec(self.data.projects[i].path.as_str(), fold_case);
            if crate::text::chars_eq(&k, &key) {
                return self.data.projects[i].duplicate();
            }
            i += 1;
        }
        let name = match file_name {
            Some(n) => {
                if is_blank_exec(&chars_of(n)) {
                    String::from_str(path)
                } else {
                    String::from_str(n)
                }
            },
            None => String::from_str(path),
        };
        let entry = RegistryEntry {
            id,
            name,
            path: String::from_str(path),
            registered_at: now,
            last_opened: None,
        };
        self.data.projects.push(entry.duplicate());
        assert(self.spec_entries() =~= es.push(entry@));
        entry
    }

    /// `register`: a new entry receives a fresh random ID and the current time.
    pub fn register(&mut self, path: &str, file_name: Option<&str>, fold_case: bool) -> (r: RegistryEntry)
        ensures
            exists|id: u128, now: UnixMicros|
                #![trigger registered(old(self).spec_entries(), path@, opt_text(file_name), fold_case, id, now)]
                final(self).spec_entries() == registered(old(self).spec_entries(), path@, opt_text(file_name), fold_case, id, now).0
                && r@ == registered(old(self).spec_entries(), path@, opt_text(file_name), fold_case, id, now).1,
    {
        let id = fresh_project_id();
        let now = utc_now_micros();
        self.register_with(path, file_name, fold_case, id, now)
    }

    /// `remove`: drops the entry with this ID and returns it; the project's
    /// files are not touched.
    pub fn remove(&mut self, id: u128) -> (r: Option<RegistryEntry>)
        ensures
            match index_of_project(old(self).spec_entries(), id, 0) {
                Some(k) => r matches Some(e) && e@ == old(self).spec_entries()[k]
                    && final(self).spec_entries() == old(self).spec_entries().remove(k),
                None => r is None && final(self).spec_entries() == old(self).spec_entries(),
            },
    {
        let ghost es = self.spec_entries();
        let mut i: usize = 0;
        while i < self.data.projects.len()
            invariant
                i <= self.data.projects@.len(),
                es == registry_views(self.data.projects@),
                es == old(self).spec_entries(),
                index_of_project(es, id, i as int) == index_of_project(es, id, 0),
            decreases self.data.projects@.len() - i,
        {
            assert(es[i as int] == self.data.projects@[i as int]@);
            if self.data.projects[i].id == id {
                let removed = self.data.projects.remove(i);
                assert(self.spec_entries() =~= es.remove(i as int));
                return Some(removed);
            }
            i += 1;
        }
        None
    }

    /// `touch` with the time given: records when the project was last opened.
    pub fn touch_at(&mut self, id: u128, now: UnixMicros) -> (r: Result<RegistryEntry, RegistryError>)
        ensures
            match index_of_project(old(self).spec_entries(), id, 0) {
                Some(k) => r matches Ok(e) && e@ == touched(old(self).spec_entries()[k], now)
                    && final(self).spec_entries() == old(self).spec_entries().update(k, e@),
                None => r is Err && final(self).spec_entries() == old(self).spec_entries(),
            },
    {
        let ghost es = self.spec_entries();
        let mut i: usize = 0;
        while i < self.data.projects.len()
            invariant
                i <= self.data.projects@.len(),
                es == registry_views(self.data.projects@),
                es == old(self).spec_entries(),
                index_of_project(es, id, i as int) == index_of_project(es, id, 0),
            decreases self.data.projects@.len() - i,
        {
            assert(es[i as int] == self.data.projects@[i as int]@);
            if self.data.projects[i].id == id {
                let mut updated = self.data.projects[i].duplicate();
                updated.last_opened = Some(now);
                self.data.projects.set(i, updated.duplicate());
                assert(self.spec_entries() =~= es.update(i as int, updated@));
                return Ok(updated);
            }
            i += 1;
        }
        let mut m = lit("Unknown project id ");
        push_str(&mut m, uuid_text(id).as_str());
        Err(RegistryError::InvalidDirectory(string_of(&m)))
    }

    /// `touch`: records the current time as the project's last opening.
    pub fn touch(&mut self, id: u128) -> (r: Result<RegistryEntry, RegistryError>)
        ensures
            match index_of_project(old(self).spec_entries(), id, 0) {
                Some(k) => r matches Ok(e) && e@.last_opened is Some
                    && e@ == touched(old(self).spec_entries()[k], e@.last_opened.unwrap())
                    && final(self).spec_entries() == old(self).spec_entries().update(k, e@),
                None => r is Err && final(self).spec_entries() == old(self).spec_entries(),
            },
    {
        let now = utc_now_micros();
        self.touch_at(id, now)
    }
}

/// A lowercase hexadecimal digit for a value below sixteen.
pub open spec fn hex_digit(d: int) -> char {
    if d < 10 {
        ((48 + d) as u32) as char
    } else {
        ((87 + d) as u32) as char
    }
}

/// The 32 hexadecimal digits of a 128-bit value, most significant first.
pub open spec fn hex_digits(id: u128) -> Seq<char> {
    Seq::new(32, |k: int| hex_digit((id as int / vstd::arithmetic::power::pow(16, (31 - k) as nat)) % 16))
}

/// The hyphenated text of a UUID: its 32 lowercase hexadecimal digits in
/// groups of 8, 4, 4, 4 and 12.
pub open spec fn uuid_hyphenated(id: u128) -> Seq<char> {
    let h = hex_digits(id);
    h.subrange(0, 8) + "-"@ + h.subrange(8, 12) + "-"@ + h.subrange(12, 16) + "-"@ + h.subrange(16, 20) + "-"@
        + h.subrange(20, 32)
}

/// `uuid::Uuid::from_u128(id).to_string()`: `from_u128` takes the value's
/// bytes most significant first, and `Display` writes them as lowercase
/// hexadecimal in the 8-4-4-4-12 hyphenated form (uuid 1.29.0,
/// `builder.rs` and `fmt.rs`).
#[verifier::external_body]
fn uuid_text(id: u128) -> (r: String)
    ensures
        r@ == uuid_hyphenated(id),
{
    uuid::Uuid::from_u128(id).to_string()
}

/// Registering a path that is already registered changes nothing and yields
/// the entry it already has.
pub proof fn registration_is_idempotent(
    es: Seq<RegistryEntryModel>,
    path: Seq<char>,
    file_name: Option<Seq<char>>,
    fold_case: bool,
    id1: u128,
    now1: UnixMicros,
    id2: u128,
    now2: UnixMicros,
)
    ensures
        ({
            let (es1, e1) = registered(es, path, file_name, fold_case, id1, now1);
            let (es2, e2) = registered(es1, path, file_name, fold_case, id2, now2);
            es2 == es1 && e2 == e1
        }),
{
    let key = path_key(path, fold_case);
    let (es1, e1) = registered(es, path, file_name, fold_case, id1, now1);
    match index_of_path(es, key, fold_case, 0) {
        Some(k) => {},
        None => {
            lemma_index_of_path_push(es, key, fold_case, e1, 0);
        },
    }
}

proof fn lemma_index_of_path_push(
    es: Seq<RegistryEntryModel>,
    key: Seq<char>,
    fold_case: bool,
    e: RegistryEntryModel,
    i: int,
)
    requires
        0 <= i <= es.len(),
        index_of_path(es, key, fold_case, i) is None,
        path_key(e.path, fold_case) == key,
    ensures
        index_of_path(es.push(e), key, fold_case, i) == Some(es.len() as int),
    decreases es.len() - i,
{
    if i < es.len() {
        assert(es.push(e)[i] == es[i]);
        lemma_index_of_path_push(es, key, fold_case, e, i + 1);
    }
}

} // verus!
