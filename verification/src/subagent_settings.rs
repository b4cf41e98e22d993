//! Settings for the generated agent files: the managed `AGENTS.md` sections
//! and three worker agents, their validation against the bundled defaults,
//! and the files they generate.

use vstd::prelude::*;
use crate::text::{
    chars_of, decimal, decimal_exec, is_whitespace, is_ws, lit, push_all, push_str, starts_with,
    string_of, trim, trim_chars, utf8_len,
};
use crate::history::utf8_len_capped;
use crate::agent_instructions::{agents_text, new_project_agents, PROJECTOR_SECTION};

verus! {

#[derive(Clone, Copy, Debug, PartialEq, Eq, Structural)]
pub enum ReasoningEffort {
    Low,
    Medium,
    High,
    Xhigh,
    Max,
    Ultra,
}

pub open spec fn effort_name(e: ReasoningEffort) -> Seq<char> {
    match e {
        ReasoningEffort::Low => "low"@,
        ReasoningEffort::Medium => "medium"@,
        ReasoningEffort::High => "high"@,
        ReasoningEffort::Xhigh => "xhigh"@,
        ReasoningEffort::Max => "max"@,
        ReasoningEffort::Ultra => "ultra"@,
    }
}

/// The lower-case name an effort is written with.
pub fn effort_name_exec(e: ReasoningEffort) -> (r: &'static str)
    ensures
        r@ == effort_name(e),
{
    match e {
        ReasoningEffort::Low => "low",
        ReasoningEffort::Medium => "medium",
        ReasoningEffort::High => "high",
        ReasoningEffort::Xhigh => "xhigh",
        ReasoningEffort::Max => "max",
        ReasoningEffort::Ultra => "ultra",
    }
}

#[derive(Clone, Debug, PartialEq, Eq)]
pub struct WorkerAgentSettings {
    pub file_name: String,
    pub name: String,
    pub description: String,
    pub model: String,
    pub model_reasoning_effort: ReasoningEffort,
    pub sandbox_mode: String,
    pub developer_instructions: String,
}

#[derive(Clone, Debug, PartialEq, Eq)]
pub struct SubagentSettings {
    pub version: u8,
    pub custom_section: String,
    pub projector_section: String,
    pub subagents_section: String,
    pub worker_low: WorkerAgentSettings,
    pub worker_medium: WorkerAgentSettings,
    pub worker_high: WorkerAgentSettings,
}

#[derive(Clone, Debug, PartialEq, Eq)]
pub struct GeneratedSubagentFile {
    pub path: String,
    pub content: String,
}

/// Why settings were refused or could not be used.
#[derive(Clone, Debug)]
pub enum SubagentSettingsError {
    Io(String),
    Defaults(String),
    Json(String),
    Validation(String),
    Render(String),
}

impl SubagentSettingsError {
    pub open spec fn is_validation(self, message: Seq<char>) -> bool {
        match self {
            SubagentSettingsError::Validation(m) => m@ == message,
            _ => false,
        }
    }

    /// The text a user sees for the error.
    pub fn message(&self) -> (r: String)
        ensures
            r@ == match self {
                SubagentSettingsError::Io(m) => "Unable to read or write subagent settings: "@ + m@,
                SubagentSettingsError::Defaults(m) => "The bundled subagent defaults are invalid: "@ + m@,
                SubagentSettingsError::Json(m) => "The saved subagent settings are invalid JSON: "@ + m@,
                SubagentSettingsError::Validation(m) => "The subagent settings are invalid: "@ + m@,
                SubagentSettingsError::Render(m) => "Unable to render a custom agent file: "@ + m@,
            },
    {
        let (prefix, m) = match self {
            SubagentSettingsError::Io(m) => ("Unable to read or write subagent settings: ", m),
            SubagentSettingsError::Defaults(m) => ("The bundled subagent defaults are invalid: ", m),
            SubagentSettingsError::Json(m) => ("The saved subagent settings are invalid JSON: ", m),
            SubagentSettingsError::Validation(m) => ("The subagent settings are invalid: ", m),
            SubagentSettingsError::Render(m) => ("Unable to render a custom agent file: ", m),
        };
        let mut out = lit(prefix);
        push_str(&mut out, m.as_str());
        string_of(&out)
    }
}

/// The only settings version there is.
pub const SETTINGS_VERSION: u8 = 1;

/// The custom section a settings file without one starts with.
pub fn default_custom_section() -> (r: String)
    ensures
        r@ == "## Custom instructions"@,
{
    String::from_str("## Custom instructions")
}

/// The Projector section a settings file without one starts with.
pub fn default_projector_section() -> (r: String)
    ensures
        r@ == PROJECTOR_SECTION@,
{
    String::from_str(PROJECTOR_SECTION)
}

// ---------------------------------------------------------------------------
// Validation

/// The role's fixed file name and agent name.
pub open spec fn role_identity(role: Seq<char>) -> Option<(Seq<char>, Seq<char>)> {
    if role == "worker_low"@ {
        Some(("worker-low.toml"@, "worker_low"@))
    } else if role == "worker_medium"@ {
        Some(("worker-medium.toml"@, "worker_medium"@))
    } else if role == "worker_high"@ {
        Some(("worker-high.toml"@, "worker_high"@))
    } else {
        None
    }
}

/// A text field that must be non-blank and, trimmed, at most `limit` UTF-8 bytes.
pub open spec fn field_refusal(role: Seq<char>, field: Seq<char>, value: Seq<char>, limit: nat) -> Option<Seq<char>> {
    if trim(value).len() == 0 {
        Some(role + " "@ + field + " cannot be empty"@)
    } else if utf8_len(trim(value)) > limit {
        Some(role + " "@ + field + " is too large"@)
    } else {
        None
    }
}

/// Why a worker's settings are refused: its identity, file name and sandbox
/// are fixed by the defaults; its description, model and instructions must be
/// present and bounded; the model is a single identifier.
pub open spec fn worker_refusal(role: Seq<char>, w: WorkerAgentSettings, d: WorkerAgentSettings) -> Option<Seq<char>> {
    match role_identity(role) {
        None => Some("unknown worker role "@ + role),
        Some((file_name, name)) => {
            if d.file_name@ != file_name || d.name@ != name || d.sandbox_mode@ != "workspace-write"@ {
                Some("the bundled "@ + role + " identity is invalid"@)
            } else if w.file_name@ != d.file_name@ || w.name@ != d.name@ || w.sandbox_mode@ != d.sandbox_mode@ {
                Some(role + " identity, filename, and sandbox mode cannot be changed"@)
            } else if field_refusal(role, "description"@, w.description@, 2000) is Some {
                field_refusal(role, "description"@, w.description@, 2000)
            } else if field_refusal(role, "model"@, w.model@, 200) is Some {
                field_refusal(role, "model"@, w.model@, 200)
            } else if field_refusal(role, "developer instructions"@, w.developer_instructions@, 32000) is Some {
                field_refusal(role, "developer instructions"@, w.developer_instructions@, 32000)
            } else if exists|i: int| 0 <= i < w.model@.len() && is_ws(#[trigger] w.model@[i]) {
                Some(role + " model must be a single model identifier"@)
            } else {
                None
            }
        },
    }
}

/// A managed `AGENTS.md` section: it must begin with its heading and, trimmed,
/// be at most 32 000 UTF-8 bytes.
pub open spec fn section_refusal(
    value: Seq<char>,
    heading: Seq<char>,
    heading_message: Seq<char>,
    size_message: Seq<char>,
) -> Option<Seq<char>> {
    if !starts_with(trim(value), heading) {
        Some(heading_message)
    } else if utf8_len(trim(value)) > 32000 {
        Some(size_message)
    } else {
        None
    }
}

/// Why settings are refused, checked in this order: the version, the three
/// sections, then the low, medium and high workers.
pub open spec fn settings_refusal(s: SubagentSettings, d: SubagentSettings) -> Option<Seq<char>> {
    let custom = section_refusal(
        s.custom_section@,
        "## Custom instructions"@,
        "the AGENTS.md custom guidance must begin with `## Custom instructions`"@,
        "the AGENTS.md custom guidance is too large"@,
    );
    let subagents = section_refusal(
        s.subagents_section@,
        "## Subagents"@,
        "the AGENTS.md guidance must begin with `## Subagents`"@,
        "the AGENTS.md subagent guidance is too large"@,
    );
    let projector = section_refusal(
        s.projector_section@,
        "## Projector"@,
        "the AGENTS.md Projector guidance must begin with `## Projector`"@,
        "the AGENTS.md Projector guidance is too large"@,
    );
    if s.version != 1 {
        Some("unsupported settings version "@ + decimal(s.version as nat))
    } else if custom is Some {
        custom
    } else if subagents is Some {
        subagents
    } else if projector is Some {
        projector
    } else if worker_refusal("worker_low"@, s.worker_low, d.worker_low) is Some {
        worker_refusal("worker_low"@, s.worker_low, d.worker_low)
    } else if worker_refusal("worker_medium"@, s.worker_medium, d.worker_medium) is Some {
        worker_refusal("worker_medium"@, s.worker_medium, d.worker_medium)
    } else {
        worker_refusal("worker_high"@, s.worker_high, d.worker_high)
    }
}

fn utf8_exceeds(s: &[char], limit: usize) -> (r: bool)
    requires
        limit <= 32000,
    ensures
        r == (utf8_len(s@) > limit),
{
    utf8_len_capped(s, limit + 1) > limit
}

fn validation(m: Vec<char>) -> (r: SubagentSettingsError)
    ensures
        r.is_validation(m@),
{
    SubagentSettingsError::Validation(string_of(&m))
}

fn check_field(role: &str, field: &str, value: &String, limit: usize) -> (r: Result<(), SubagentSettingsError>)
    requires
        limit <= 32000,
    ensures
        r is Err <==> field_refusal(role@, field@, value@, limit as nat) is Some,
        r is Err ==> r->Err_0.is_validation(field_refusal(role@, field@, value@, limit as nat).unwrap()),
{
    let t = trim_chars(&chars_of(value.as_str()));
    if t.len() == 0 {
        let mut m = lit(role);
        push_str(&mut m, " ");
        push_str(&mut m, field);
        push_str(&mut m, " cannot be empty");
        return Err(validation(m));
    }
    if utf8_exceeds(&t, limit) {
        let mut m = lit(role);
        push_str(&mut m, " ");
        push_str(&mut m, field);
        push_str(&mut m, " is too large");
        return Err(validation(m));
    }
    Ok(())
}

/// `validate_worker`.
pub fn validate_worker(
    role: &str,
    worker: &WorkerAgentSettings,
    defaults: &WorkerAgentSettings,
) -> (r: Result<(), SubagentSettingsError>)
    ensures
        r is Err <==> worker_refusal(role@, *worker, *defaults) is Some,
        r is Err ==> r->Err_0.is_validation(worker_refusal(role@, *worker, *defaults).unwrap()),
{
    let rc = chars_of(role);
    proof {
        reveal_strlit("worker_low");
        reveal_strlit("worker_medium");
        reveal_strlit("worker_high");
        reveal_strlit("worker-low.toml");
        reveal_strlit("worker-medium.toml");
        reveal_strlit("worker-high.toml");
        reveal_strlit("workspace-write");
    }
    let (expected_file, expected_name) = if crate::text::str_eq(&rc, "worker_low") {
        ("worker-low.toml", "worker_low")
    } else if crate::text::str_eq(&rc, "worker_medium") {
        ("worker-medium.toml", "worker_medium")
    } else if crate::text::str_eq(&rc, "worker_high") {
        ("worker-high.toml", "worker_high")
    } else {
        let mut m = lit("unknown worker role ");
        push_str(&mut m, role);
        return Err(validation(m));
    };
    if defaults.file_name != String::from_str(expected_file) || defaults.name != String::from_str(expected_name)
        || defaults.sandbox_mode != String::from_str("workspace-write")
    {
        let mut m = lit("the bundled ");
        push_str(&mut m, role);
        push_str(&mut m, " identity is invalid");
        return Err(validation(m));
    }
    if worker.file_name != defaults.file_name || worker.name != defaults.name
        || worker.sandbox_mode != defaults.sandbox_mode
    {
        let mut m = lit(role);
        push_str(&mut m, " identity, filename, and sandbox mode cannot be changed");
        return Err(validation(m));
    }
    match check_field(role, "description", &worker.description, 2000) {
        Err(e) => { return Err(e); },
        Ok(()) => {},
    }
    match check_field(role, "model", &worker.model, 200) {
        Err(e) => { return Err(e); },
        Ok(()) => {},
    }
    match check_field(role, "developer instructions", &worker.developer_instructions, 32000) {
        Err(e) => { return Err(e); },
        Ok(()) => {},
    }
    if has_whitespace(worker.model.as_str()) {
        let mut m = lit(role);
        push_str(&mut m, " model must be a single model identifier");
        return Err(validation(m));
    }
    Ok(())
}

fn has_whitespace(s: &str) -> (r: bool)
    ensures
        r == exists|i: int| 0 <= i < s@.len() && is_ws(#[trigger] s@[i]),
{
    let v = chars_of(s);
    let mut i: usize = 0;
    while i < v.len()
        invariant
            i <= v@.len(),
            v@ == s@,
            forall|j: int| 0 <= j < i ==> !is_ws(#[trigger] v@[j]),
        decreases v@.len() - i,
    {
        if is_whitespace(v[i]) {
            return true;
        }
        i += 1;
    }
    false
}

fn check_section(
    value: &String,
    heading: &str,
    heading_message: &str,
    size_message: &str,
) -> (r: Result<(), SubagentSettingsError>)
    ensures
        r is Err <==> section_refusal(value@, heading@, heading_message@, size_message@) is Some,
        r is Err ==> r->Err_0.is_validation(section_refusal(value@, heading@, heading_message@, size_message@).unwrap()),
{
    let t = trim_chars(&chars_of(value.as_str()));
    if !crate::text::has_prefix(&t, heading) {
        return Err(SubagentSettingsError::Validation(String::from_str(heading_message)));
    }
    if utf8_exceeds(&t, 32000) {
        return Err(SubagentSettingsError::Validation(String::from_str(size_message)));
    }
    Ok(())
}

/// `validate_settings`: settings are checked against the bundled defaults,
/// which fix each worker's identity.
pub fn validate_settings(settings: &SubagentSettings, defaults: &SubagentSettings) -> (r: Result<(), SubagentSettingsError>)
    ensures
        r is Err <==> settings_refusal(*settings, *defaults) is Some,
        r is Err ==> r->Err_0.is_validation(settings_refusal(*settings, *defaults).unwrap()),
{
    if settings.version != SETTINGS_VERSION {
        let mut m = lit("unsupported settings version ");
        push_all(&mut m, &decimal_exec(settings.version as u64));
        return Err(validation(m));
    }
    match check_section(
        &settings.custom_section,
        "## Custom instructions",
        "the AGENTS.md custom guidance must begin with `## Custom instructions`",
        "the AGENTS.md custom guidance is too large",
    ) {
        Err(e) => { return Err(e); },
        Ok(()) => {},
    }
    match check_section(
        &settings.subagents_section,
        "## Subagents",
        "the AGENTS.md guidance must begin with `## Subagents`",
        "the AGENTS.md subagent guidance is too large",
    ) {
        Err(e) => { return Err(e); },
        Ok(()) => {},
    }
    match check_section(
        &settings.projector_section,
        "## Projector",
        "the AGENTS.md Projector guidance must begin with `## Projector`",
        "the AGENTS.md Projector guidance is too large",
    ) {
        Err(e) => { return Err(e); },
        Ok(()) => {},
    }
    match validate_worker("worker_low", &settings.worker_low, &defaults.worker_low) {
        Err(e) => { return Err(e); },
        Ok(()) => {},
    }
    match validate_worker("worker_medium", &settings.worker_medium, &defaults.worker_medium) {
        Err(e) => { return Err(e); },
        Ok(()) => {},
    }
    validate_worker("worker_high", &settings.worker_high, &defaults.worker_high)
}

// ---------------------------------------------------------------------------
// Generated files

/// What `toml::to_string_pretty` writes for a table with these string
/// entries, in this order; `None` where it fails.
pub uninterp spec fn toml_pretty(entries: Seq<(Seq<char>, Seq<char>)>) -> Option<Seq<char>>;

/// `toml::to_string_pretty` on a `toml::Table` holding the entries as
/// strings, in order. The contract names the text and claims that it is
/// always written: the serializer turns string keys and string values into
/// an inline table without error, and `write_document` accepts a table (toml
/// 0.8.23, `ser/mod.rs`); what the text is, is not stated.
#[verifier::external_body]
fn toml_table_text(entries: &Vec<(String, String)>) -> (r: Result<String, String>)
    ensures
        r is Ok,
        match r {
            Ok(t) => toml_pretty(entries@.map_values(|e: (String, String)| (e.0@, e.1@))) == Some(t@),
            Err(_) => toml_pretty(entries@.map_values(|e: (String, String)| (e.0@, e.1@))) is None,
        },
{
    let mut table = toml::Table::new();
    for (key, value) in entries {
        table.insert(key.clone(), toml::Value::String(value.clone()));
    }
    toml::to_string_pretty(&table).map_err(|error| error.to_string())
}

/// The keys and values of a worker's agent file, in file order.
pub open spec fn worker_entries(w: WorkerAgentSettings) -> Seq<(Seq<char>, Seq<char>)> {
    seq![
        ("name"@, w.name@),
        ("description"@, w.description@),
        ("model"@, w.model@),
        ("model_reasoning_effort"@, effort_name(w.model_reasoning_effort)),
        ("sandbox_mode"@, w.sandbox_mode@),
        ("developer_instructions"@, w.developer_instructions@),
    ]
}

/// A worker's agent file: its TOML table and a final newline.
pub open spec fn worker_file(w: WorkerAgentSettings) -> Option<Seq<char>> {
    match toml_pretty(worker_entries(w)) {
        Some(t) => Some(t + "\n"@),
        None => None,
    }
}

/// `render_worker`.
pub fn render_worker(worker: &WorkerAgentSettings) -> (r: Result<String, SubagentSettingsError>)
    ensures
        r is Ok,
        match r {
            Ok(t) => worker_file(*worker) == Some(t@),
            Err(_) => worker_file(*worker) is None,
        },
{
    let mut entries: Vec<(String, String)> = Vec::new();
    entries.push((String::from_str("name"), worker.name.clone()));
    entries.push((String::from_str("description"), worker.description.clone()));
    entries.push((String::from_str("model"), worker.model.clone()));
    entries.push((String::from_str("model_reasoning_effort"), String::from_str(effort_name_exec(worker.model_reasoning_effort))));
    entries.push((String::from_str("sandbox_mode"), worker.sandbox_mode.clone()));
    entries.push((String::from_str("developer_instructions"), worker.developer_instructions.clone()));
    assert(entries@.map_values(|e: (String, String)| (e.0@, e.1@)) =~= worker_entries(*worker));
    match toml_table_text(&entries) {
        Ok(text) => {
            let mut out = chars_of(text.as_str());
            push_str(&mut out, "\n");
            Ok(string_of(&out))
        },
        Err(message) => Err(SubagentSettingsError::Render(message)),
    }
}

/// The files the settings generate for a project: `AGENTS.md`, then the
/// low, medium and high workers' agent files; `None` where a worker file
/// cannot be rendered.
pub open spec fn generated(s: SubagentSettings, project_name: Seq<char>) -> Option<Seq<(Seq<char>, Seq<char>)>> {
    match (worker_file(s.worker_low), worker_file(s.worker_medium), worker_file(s.worker_high)) {
        (Some(low), Some(medium), Some(high)) => Some(seq![
            ("AGENTS.md"@, agents_text(project_name, s.custom_section@, s.subagents_section@, s.projector_section@)),
            (".codex/agents/"@ + s.worker_low.file_name@, low),
            (".codex/agents/"@ + s.worker_medium.file_name@, medium),
            (".codex/agents/"@ + s.worker_high.file_name@, high),
        ]),
        _ => None,
    }
}

pub open spec fn file_views(v: Seq<GeneratedSubagentFile>) -> Seq<(Seq<char>, Seq<char>)> {
    v.map_values(|f: GeneratedSubagentFile| (f.path@, f.content@))
}

fn worker_path(w: &WorkerAgentSettings) -> (r: String)
    ensures
        r@ == ".codex/agents/"@ + w.file_name@,
{
    let mut p = lit(".codex/agents/");
    push_str(&mut p, w.file_name.as_str());
    string_of(&p)
}

impl SubagentSettings {
    /// `generated_files`: the files these settings generate for a project.
    pub fn generated_files(&self, project_name: &str) -> (r: Result<Vec<GeneratedSubagentFile>, SubagentSettingsError>)
        ensures
            r is Ok,
            match r {
                Ok(files) => generated(*self, project_name@) == Some(file_views(files@)),
                Err(_) => generated(*self, project_name@) is None,
            },
    {
        let agents = GeneratedSubagentFile {
            path: String::from_str("AGENTS.md"),
            content: new_project_agents(
                project_name,
                self.custom_section.as_str(),
                self.subagents_section.as_str(),
                self.projector_section.as_str(),
            ),
        };
        let low = match render_worker(&self.worker_low) {
            Ok(t) => t,
            Err(e) => { return Err(e); },
        };
        let medium = match render_worker(&self.worker_medium) {
            Ok(t) => t,
            Err(e) => { return Err(e); },
        };
        let high = match render_worker(&self.worker_high) {
            Ok(t) => t,
            Err(e) => { return Err(e); },
        };
        let mut files: Vec<GeneratedSubagentFile> = Vec::new();
        files.push(agents);
        files.push(GeneratedSubagentFile { path: worker_path(&self.worker_low), content: low });
        files.push(GeneratedSubagentFile { path: worker_path(&self.worker_medium), content: medium });
        files.push(GeneratedSubagentFile { path: worker_path(&self.worker_high), content: high });
        assert(file_views(files@) =~= generated(*self, project_name@).unwrap());
        Ok(files)
    }
}

/// What a project holds at the path of a generated file.
#[derive(Clone, Debug)]
pub enum ExistingFile {
    Missing,
    Text(String),
    NotText,
}

pub open spec fn existing_text(e: ExistingFile) -> Option<Seq<char>> {
    match e {
        ExistingFile::Text(t) => Some(t@),
        _ => None,
    }
}

/// A file is written where it is missing, unreadable as text, or different.
pub open spec fn needs_write(e: ExistingFile, content: Seq<char>) -> bool {
    match e {
        ExistingFile::Text(t) => t@ != content,
        _ => true,
    }
}

/// The generated files whose content differs from what the project holds.
pub open spec fn changed_files(files: Seq<(Seq<char>, Seq<char>)>, existing: Seq<ExistingFile>) -> Seq<(Seq<char>, Seq<char>)>
    decreases files.len(),
{
    if files.len() == 0 {
        Seq::empty()
    } else {
        let rest = changed_files(files.drop_last(), existing);
        if needs_write(existing[files.len() - 1], files.last().1) {
            rest.push(files.last())
        } else {
            rest
        }
    }
}

pub open spec fn not_utf8_message() -> Seq<char> {
    "AGENTS.md is not valid UTF-8 and was not changed"@
}

impl SubagentSettings {
    /// The managed files of an existing project that these settings change:
    /// `AGENTS.md` keeps what it holds outside the managed sections, the
    /// worker files are replaced. `existing` holds what the project has at
    /// each generated path, in the order of `generated_files`.
    pub fn settings_updates(&self, project_name: &str, existing: &Vec<ExistingFile>) -> (r: Result<Vec<GeneratedSubagentFile>, SubagentSettingsError>)
        requires
            existing@.len() == 4,
        ensures
            match generated(*self, project_name@) {
                None => r is Err,
                Some(files) => match existing@[0] {
                    ExistingFile::NotText => r is Err && r->Err_0.is_validation(not_utf8_message()),
                    _ => r matches Ok(updates) && file_views(updates@) == changed_files(
                        files.update(0, (files[0].0, crate::agent_instructions::migrated_agents(
                            existing_text(existing@[0]),
                            project_name@,
                            self.custom_section@,
                            self.subagents_section@,
                            self.projector_section@,
                        ))),
                        existing@,
                    ),
                },
            },
    {
        let mut files = match self.generated_files(project_name) {
            Ok(files) => files,
            Err(e) => {
                return Err(e);
            },
        };
        let ghost gen = file_views(files@);
        assert(gen.len() == 4);
        assert(files@.len() == gen.len());
        let agents_existing: Option<&str> = match &existing[0] {
            ExistingFile::Missing => None,
            ExistingFile::Text(t) => Some(t.as_str()),
            ExistingFile::NotText => {
                return Err(SubagentSettingsError::Validation(String::from_str("AGENTS.md is not valid UTF-8 and was not changed")));
            },
        };
        proof {
            reveal_strlit("AGENTS.md is not valid UTF-8 and was not changed");
        }
        let agents = crate::agent_instructions::migrate_agents(
            agents_existing,
            project_name,
            self.custom_section.as_str(),
            self.subagents_section.as_str(),
            self.projector_section.as_str(),
        );
        let first = GeneratedSubagentFile { path: String::from_str("AGENTS.md"), content: agents };
        let ghost wanted = gen.update(0, (gen[0].0, first.content@));
        proof {
            reveal_strlit("AGENTS.md");
        }
        files.set(0, first);
        assert(file_views(files@) =~= wanted);
        let mut out: Vec<GeneratedSubagentFile> = Vec::new();
        let mut k: usize = 0;
        while k < 4
            invariant
                k <= 4,
                files@.len() == 4,
                existing@.len() == 4,
                file_views(files@) == wanted,
                file_views(out@) == changed_files(wanted.subrange(0, k as int), existing@),
            decreases 4 - k,
        {
            assert(wanted.subrange(0, k + 1).drop_last() =~= wanted.subrange(0, k as int));
            assert(wanted.subrange(0, k + 1).last() == wanted[k as int]);
            let write = match &existing[k] {
                ExistingFile::Text(t) => !crate::text::chars_eq(&chars_of(t.as_str()), &chars_of(files[k].content.as_str())),
                _ => true,
            };
            if write {
                let ghost before = file_views(out@);
                out.push(GeneratedSubagentFile { path: files[k].path.clone(), content: files[k].content.clone() });
                assert(file_views(out@) =~= before.push(wanted[k as int]));
            }
            k += 1;
        }
        assert(wanted.subrange(0, 4) =~= wanted);
        Ok(out)
    }
}

/// The saved settings and the bundled defaults they are checked against.
pub struct SubagentSettingsStore {
    defaults: SubagentSettings,
    settings: SubagentSettings,
}

impl SubagentSettingsStore {
    pub closed spec fn spec_defaults(&self) -> SubagentSettings {
        self.defaults
    }

    pub closed spec fn spec_settings(&self) -> SubagentSettings {
        self.settings
    }

    /// A store over loaded settings, which must pass validation against the defaults.
    pub fn new(defaults: SubagentSettings, settings: SubagentSettings) -> (r: Result<Self, SubagentSettingsError>)
        ensures
            r is Err <==> settings_refusal(settings, defaults) is Some,
            r is Ok ==> r->Ok_0.spec_defaults() == defaults && r->Ok_0.spec_settings() == settings,
    {
        match validate_settings(&settings, &defaults) {
            Err(e) => Err(e),
            Ok(()) => Ok(SubagentSettingsStore { defaults, settings }),
        }
    }

    /// The bundled defaults.
    pub fn defaults(&self) -> (r: &SubagentSettings)
        ensures
            *r == self.spec_defaults(),
    {
        &self.defaults
    }

    /// `settings`: the current settings.
    pub fn settings(&self) -> (r: &SubagentSettings)
        ensures
            *r == self.spec_settings(),
    {
        &self.settings
    }

    /// `save`: valid settings replace the current ones, which are returned.
    pub fn save(&mut self, settings: SubagentSettings) -> (r: Result<SubagentSettings, SubagentSettingsError>)
        ensures
            r is Err <==> settings_refusal(settings, old(self).spec_defaults()) is Some,
            r is Err ==> r->Err_0.is_validation(settings_refusal(settings, old(self).spec_defaults()).unwrap())
                && final(self).spec_settings() == old(self).spec_settings(),
            r is Ok ==> r->Ok_0 == settings && final(self).spec_settings() == settings,
            final(self).spec_defaults() == old(self).spec_defaults(),
    {
        match validate_settings(&settings, &self.defaults) {
            Err(e) => Err(e),
            Ok(()) => {
                let saved = settings.duplicate();
                self.settings = settings;
                Ok(saved)
            },
        }
    }

    /// `reset`: the bundled defaults become the current settings and are returned.
    pub fn reset(&mut self) -> (r: SubagentSettings)
        ensures
            r == old(self).spec_defaults(),
            final(self).spec_settings() == old(self).spec_defaults(),
            final(self).spec_defaults() == old(self).spec_defaults(),
    {
        self.settings = self.defaults.duplicate();
        self.defaults.duplicate()
    }

    /// `preview`: the files that valid settings would generate for an example project.
    pub fn preview(&self, settings: &SubagentSettings) -> (r: Result<Vec<GeneratedSubagentFile>, SubagentSettingsError>)
        ensures
            settings_refusal(*settings, self.spec_defaults()) is Some ==> r is Err
                && r->Err_0.is_validation(settings_refusal(*settings, self.spec_defaults()).unwrap()),
            settings_refusal(*settings, self.spec_defaults()) is None ==> r is Ok,
            settings_refusal(*settings, self.spec_defaults()) is None ==> match r {
                Ok(files) => generated(*settings, "Example Project"@) == Some(file_views(files@)),
                Err(_) => generated(*settings, "Example Project"@) is None,
            },
    {
        match validate_settings(settings, &self.defaults) {
            Err(e) => Err(e),
            Ok(()) => settings.generated_files("Example Project"),
        }
    }
}

impl WorkerAgentSettings {
    /// A field-by-field copy.
    pub fn duplicate(&self) -> (r: WorkerAgentSettings)
        ensures
            r == *self,
    {
        WorkerAgentSettings {
            file_name: self.file_name.clone(),
            name: self.name.clone(),
            description: self.description.clone(),
            model: self.model.clone(),
            model_reasoning_effort: self.model_reasoning_effort,
            sandbox_mode: self.sandbox_mode.clone(),
            developer_instructions: self.developer_instructions.clone(),
        }
    }
}

impl SubagentSettings {
    /// A field-by-field copy.
    pub fn duplicate(&self) -> (r: SubagentSettings)
        ensures
            r == *self,
    {
        SubagentSettings {
            version: self.version,
            custom_section: self.custom_section.clone(),
            projector_section: self.projector_section.clone(),
            subagents_section: self.subagents_section.clone(),
            worker_low: self.worker_low.duplicate(),
            worker_medium: self.worker_medium.duplicate(),
            worker_high: self.worker_high.duplicate(),
        }
    }
}


/// What migrating one project's settings reports.
#[derive(Clone, Debug)]
pub struct SettingsMigrationResult {
    pub project_id: u128,
    pub project_name: String,
    pub updated_files: Vec<String>,
    pub error: Option<String>,
}

/// The backup kept beside a managed file before it is rewritten.
pub open spec fn backup_of(path: Seq<char>) -> Seq<char> {
    path + ".projector-backup"@
}

/// The backups a settings migration keeps: one for each update whose file
/// already existed, in the order of the updates.
pub open spec fn backups_model(updates: Seq<(Seq<char>, Seq<char>)>, existing: Seq<Seq<char>>) -> Seq<Seq<char>>
    decreases updates.len(),
{
    if updates.len() == 0 {
        Seq::empty()
    } else {
        let prev = backups_model(updates.drop_last(), existing);
        if existing.contains(updates.last().0) {
            prev.push(backup_of(updates.last().0))
        } else {
            prev
        }
    }
}

/// The relative paths of the backups to keep before the updates are
/// written, given the relative paths of the managed files that exist.
pub fn settings_backups(updates: &Vec<GeneratedSubagentFile>, existing: &Vec<String>) -> (r: Vec<String>)
    ensures
        crate::models::strs(r@) == backups_model(file_views(updates@), crate::models::strs(existing@)),
{
    let ghost uv = file_views(updates@);
    let ghost ev = crate::models::strs(existing@);
    let mut out: Vec<String> = Vec::new();
    let mut i: usize = 0;
    while i < updates.len()
        invariant
            i <= updates@.len(),
            uv == file_views(updates@),
            ev == crate::models::strs(existing@),
            crate::models::strs(out@) == backups_model(uv.subrange(0, i as int), ev),
        decreases updates@.len() - i,
    {
        assert(uv.subrange(0, i + 1).drop_last() =~= uv.subrange(0, i as int));
        assert(uv.subrange(0, i + 1).last() == uv[i as int]);
        let mut found = false;
        let mut j: usize = 0;
        while j < existing.len()
            invariant
                j <= existing@.len(),
                i < updates@.len(),
                ev == crate::models::strs(existing@),
                uv == file_views(updates@),
                found == exists|m: int| 0 <= m < j && ev[m] == uv[i as int].0,
            decreases existing@.len() - j,
        {
            assert(ev[j as int] == existing@[j as int]@);
            if existing[j] == updates[i].path {
                found = true;
            }
            j += 1;
        }
        proof {
            if found {
                let m = choose|m: int| 0 <= m < existing@.len() && ev[m] == uv[i as int].0;
                assert(ev.contains(uv[i as int].0));
            } else if ev.contains(uv[i as int].0) {
                let m = choose|m: int| 0 <= m < ev.len() && ev[m] == uv[i as int].0;
                assert(false);
            }
        }
        if found {
            let mut b = lit(updates[i].path.as_str());
            push_str(&mut b, ".projector-backup");
            let ghost before = crate::models::strs(out@);
            out.push(string_of(&b));
            assert(crate::models::strs(out@) =~= before.push(backup_of(uv[i as int].0)));
        }
        i += 1;
    }
    assert(uv.subrange(0, uv.len() as int) =~= uv);
    out
}

} // verus!
