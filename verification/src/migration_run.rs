//! The decisions of a migration run over a `Projects` directory: which root
//! is accepted, the order in which project folders are visited, what each
//! project's outcome adds to the report, and the final list of modified
//! projects. Reading directories and files is left to the caller.

use vstd::prelude::*;
use crate::text::{chars_of, eq_ignore_ascii_case, eq_ignore_case, lit, lower_text, push_str, string_of, to_lowercase};
use crate::models::strs;
use crate::history::{insert_text, text_pos_from};
use crate::todos::{text_lt, text_lt_exec};
use crate::migration::{MigratedFile, MigrationReport, SkippedProject};

verus! {

/// Only a directory named `Projects` (ASCII case aside) is migrated.
pub fn is_projects_root(file_name: Option<&str>) -> (r: bool)
    ensures
        r == (match file_name {
            Some(n) => eq_ignore_case(n@, "Projects"@),
            None => false,
        }),
{
    match file_name {
        Some(n) => eq_ignore_ascii_case(&chars_of(n), "Projects"),
        None => false,
    }
}

// ---------------------------------------------------------------------------
// The order of project folders

/// Folder `a` is visited before folder `b`: its lower-cased name comes first.
pub open spec fn name_before(a: String, b: String) -> bool {
    text_lt(lower_text(a@), lower_text(b@))
}

pub open spec fn name_pos_from(sorted: Seq<String>, x: String, i: int) -> int
    decreases sorted.len() - i,
{
    if i < 0 || i >= sorted.len() {
        sorted.len() as int
    } else if name_before(x, sorted[i]) {
        i
    } else {
        name_pos_from(sorted, x, i + 1)
    }
}

proof fn lemma_name_pos(sorted: Seq<String>, x: String, i: int)
    requires
        0 <= i <= sorted.len(),
    ensures
        i <= name_pos_from(sorted, x, i) <= sorted.len(),
    decreases sorted.len() - i,
{
    if i < sorted.len() && !name_before(x, sorted[i]) {
        lemma_name_pos(sorted, x, i + 1);
    }
}

/// The folder names in visiting order: sorted by lower-cased name, folders
/// whose lower-cased names are equal kept in the order given (a stable sort).
pub open spec fn name_order(s: Seq<String>) -> Seq<String>
    decreases s.len(),
{
    if s.len() == 0 {
        s
    } else {
        let sorted = name_order(s.drop_last());
        sorted.insert(name_pos_from(sorted, s.last(), 0), s.last())
    }
}

proof fn lemma_name_order_len(s: Seq<String>)
    ensures
        name_order(s).len() == s.len(),
    decreases s.len(),
{
    if s.len() > 0 {
        lemma_name_order_len(s.drop_last());
        lemma_name_pos(name_order(s.drop_last()), s.last(), 0);
    }
}

fn name_before_exec(a: &String, b: &String) -> (r: bool)
    ensures
        r == name_before(*a, *b),
{
    let left = to_lowercase(&chars_of(a.as_str()));
    let right = to_lowercase(&chars_of(b.as_str()));
    text_lt_exec(&left, &right)
}

/// The project folders in the order a migration visits them.
pub fn migration_order(names: Vec<String>) -> (r: Vec<String>)
    ensures
        r@ == name_order(names@),
{
    let ghost all = names@;
    let mut rest = names;
    let mut sorted: Vec<String> = Vec::new();
    let ghost mut k: int = 0;
    assert(all.subrange(0, 0) =~= Seq::<String>::empty());
    assert(all.subrange(0, all.len() as int) =~= all);
    while rest.len() > 0
        invariant
            0 <= k <= all.len(),
            rest@ == all.subrange(k, all.len() as int),
            sorted@ == name_order(all.subrange(0, k)),
        decreases rest@.len(),
    {
        let x = rest.remove(0);
        let ghost pre = all.subrange(0, k);
        assert(all.subrange(0, k + 1).drop_last() =~= pre);
        assert(all.subrange(0, k + 1).last() == x);
        proof {
            lemma_name_order_len(pre);
            lemma_name_pos(sorted@, x, 0);
        }
        let mut p: usize = 0;
        while p < sorted.len() && !name_before_exec(&x, &sorted[p])
            invariant
                p <= sorted@.len(),
                sorted@ == name_order(pre),
                name_pos_from(sorted@, x, p as int) == name_pos_from(sorted@, x, 0),
            decreases sorted@.len() - p,
        {
            p += 1;
        }
        sorted.insert(p, x);
        proof {
            k = k + 1;
            assert(rest@ =~= all.subrange(k, all.len() as int));
        }
    }
    sorted
}

// ---------------------------------------------------------------------------
// Recording a project's outcome

/// A migrated file over texts.
pub struct MigratedModel {
    pub project: Seq<char>,
    pub path: Seq<char>,
    pub backup: Seq<char>,
    pub item_count: usize,
}

pub open spec fn migrated_view(f: MigratedFile) -> MigratedModel {
    MigratedModel { project: f.project@, path: f.path@, backup: f.backup@, item_count: f.item_count }
}

/// A migration report over texts.
#[verifier::ext_equal]
pub struct ReportModel {
    pub projects_root: Seq<char>,
    pub modified_projects: Seq<Seq<char>>,
    pub migrated_files: Seq<MigratedModel>,
    pub updated_agent_files: Seq<Seq<char>>,
    pub warnings: Seq<Seq<char>>,
    pub skipped_projects: Seq<(Seq<char>, Seq<char>)>,
    pub validation_failures: Seq<Seq<char>>,
}

pub open spec fn report_view(r: MigrationReport) -> ReportModel {
    ReportModel {
        projects_root: r.projects_root@,
        modified_projects: strs(r.modified_projects@),
        migrated_files: r.migrated_files@.map_values(|f: MigratedFile| migrated_view(f)),
        updated_agent_files: strs(r.updated_agent_files@),
        warnings: strs(r.warnings@),
        skipped_projects: r.skipped_projects@.map_values(|s: SkippedProject| (s.project@, s.reason@)),
        validation_failures: strs(r.validation_failures@),
    }
}

/// What happened to a project's `TODO.md` or working-history file: none was
/// found, it needed no change, it was rewritten (the migrated file and the
/// reader's warnings), or it failed (its displayed path and the message).
pub enum FileOutcome {
    Missing,
    Unchanged,
    Migrated(MigratedFile, Vec<String>),
    Failed(String, String),
}

/// What happened to a project's `AGENTS.md`: nothing, it was updated (its
/// displayed path and its backup's), or it failed (the message).
pub enum AgentsOutcome {
    Unchanged,
    Updated(String, String),
    Failed(String),
}

/// A report line about a project.
pub open spec fn about(project: Seq<char>, text: Seq<char>) -> Seq<char> {
    project + ": "@ + text
}

pub open spec fn about_all(project: Seq<char>, texts: Seq<Seq<char>>) -> Seq<Seq<char>> {
    texts.map_values(|t: Seq<char>| about(project, t))
}

/// What a file's outcome adds to the report.
pub open spec fn file_recorded(m: ReportModel, project: Seq<char>, outcome: FileOutcome, missing: Seq<char>) -> ReportModel {
    match outcome {
        FileOutcome::Missing => ReportModel { warnings: m.warnings.push(about(project, missing)), ..m },
        FileOutcome::Unchanged => m,
        FileOutcome::Migrated(f, ws) => ReportModel {
            warnings: m.warnings + about_all(project, strs(ws@)),
            migrated_files: m.migrated_files.push(migrated_view(f)),
            ..m
        },
        FileOutcome::Failed(path, message) => ReportModel {
            validation_failures: m.validation_failures.push(about(project, path@ + ": "@ + message@)),
            ..m
        },
    }
}

/// What the `AGENTS.md` outcome adds to the report.
pub open spec fn agents_recorded(m: ReportModel, project: Seq<char>, outcome: AgentsOutcome) -> ReportModel {
    match outcome {
        AgentsOutcome::Unchanged => m,
        AgentsOutcome::Updated(path, backup) => ReportModel {
            updated_agent_files: m.updated_agent_files.push(path@),
            warnings: m.warnings.push(about(project, "AGENTS.md backed up to "@ + backup@)),
            ..m
        },
        AgentsOutcome::Failed(message) => ReportModel {
            validation_failures: m.validation_failures.push(about(project, "AGENTS.md: "@ + message@)),
            ..m
        },
    }
}

pub open spec fn skipped_reason() -> Seq<char> {
    "No recognizable project-state Markdown files; AGENTS.md was already current."@
}

/// The report after one project: its TODO, history and `AGENTS.md` outcomes
/// in that order; the project counts as modified where any file was
/// rewritten, and as skipped where neither state file was found and nothing
/// was rewritten.
pub open spec fn recorded(
    m: ReportModel,
    project: Seq<char>,
    todo: FileOutcome,
    history: FileOutcome,
    agents: AgentsOutcome,
) -> ReportModel {
    let m1 = file_recorded(m, project, todo, "no recognizable TODO file found"@);
    let m2 = file_recorded(m1, project, history, "no recognizable working-history file found"@);
    let m3 = agents_recorded(m2, project, agents);
    if todo is Migrated || history is Migrated || agents is Updated {
        ReportModel { modified_projects: m3.modified_projects.push(project), ..m3 }
    } else if todo is Missing && history is Missing {
        ReportModel { skipped_projects: m3.skipped_projects.push((project, skipped_reason())), ..m3 }
    } else {
        m3
    }
}

fn about_exec(project: &str, text: &str) -> (r: String)
    ensures
        r@ == about(project@, text@),
{
    let mut m = lit(project);
    push_str(&mut m, ": ");
    push_str(&mut m, text);
    string_of(&m)
}

fn record_file(report: &mut MigrationReport, project: &str, outcome: FileOutcome, missing: &str)
    ensures
        report_view(*final(report)) == file_recorded(report_view(*old(report)), project@, outcome, missing@),
{
    let ghost m = report_view(*report);
    match outcome {
        FileOutcome::Missing => {
            report.warnings.push(about_exec(project, missing));
            assert(report_view(*report) =~~= ReportModel { warnings: m.warnings.push(about(project@, missing@)), ..m });
        },
        FileOutcome::Unchanged => {},
        FileOutcome::Migrated(file, warnings) => {
            let ghost ws = strs(warnings@);
            let mut i: usize = 0;
            while i < warnings.len()
                invariant
                    i <= warnings@.len(),
                    ws == strs(warnings@),
                    report_view(*report) == (ReportModel {
                        warnings: m.warnings + about_all(project@, ws.subrange(0, i as int)),
                        ..m
                    }),
                decreases warnings@.len() - i,
            {
                let line = about_exec(project, warnings[i].as_str());
                let ghost before = report_view(*report);
                let ghost lv = line@;
                report.warnings.push(line);
                assert(ws[i as int] == warnings@[i as int]@);
                assert(strs(report.warnings@) =~= before.warnings.push(lv));
                assert(m.warnings + about_all(project@, ws.subrange(0, i + 1)) =~= (m.warnings + about_all(
                    project@,
                    ws.subrange(0, i as int),
                )).push(lv));
                assert(about_all(project@, ws.subrange(0, i + 1)) =~= about_all(project@, ws.subrange(0, i as int)).push(
                    about(project@, ws[i as int]),
                ));
                assert(report_view(*report) =~~= ReportModel {
                    warnings: m.warnings + about_all(project@, ws.subrange(0, i + 1)),
                    ..m
                });
                i += 1;
            }
            assert(ws.subrange(0, ws.len() as int) =~= ws);
            let ghost mid = report_view(*report);
            let ghost fv = migrated_view(file);
            report.migrated_files.push(file);
            assert(report_view(*report) =~~= ReportModel { migrated_files: mid.migrated_files.push(fv), ..mid });
        },
        FileOutcome::Failed(path, message) => {
            let mut text = lit(path.as_str());
            push_str(&mut text, ": ");
            push_str(&mut text, message.as_str());
            let line = about_exec(project, string_of(&text).as_str());
            report.validation_failures.push(line);
            assert(report_view(*report) =~~= ReportModel {
                validation_failures: m.validation_failures.push(about(project@, path@ + ": "@ + message@)),
                ..m
            });
        },
    }
}

/// Adds one project's outcomes to the report, as `recorded` says.
pub fn record_project(
    report: MigrationReport,
    project: &str,
    todo: FileOutcome,
    history: FileOutcome,
    agents: AgentsOutcome,
) -> (r: MigrationReport)
    ensures
        report_view(r) == recorded(report_view(report), project@, todo, history, agents),
{
    let mut report = report;
    let todo_missing = matches!(todo, FileOutcome::Missing);
    let history_missing = matches!(history, FileOutcome::Missing);
    let mut modified = matches!(todo, FileOutcome::Migrated(_, _)) || matches!(history, FileOutcome::Migrated(_, _));
    record_file(&mut report, project, todo, "no recognizable TODO file found");
    record_file(&mut report, project, history, "no recognizable working-history file found");
    let ghost m2 = report_view(report);
    match agents {
        AgentsOutcome::Unchanged => {},
        AgentsOutcome::Updated(path, backup) => {
            let ghost pv = path@;
            report.updated_agent_files.push(path);
            let mut text = lit("AGENTS.md backed up to ");
            push_str(&mut text, backup.as_str());
            report.warnings.push(about_exec(project, string_of(&text).as_str()));
            assert(report_view(report) =~~= ReportModel {
                updated_agent_files: m2.updated_agent_files.push(pv),
                warnings: m2.warnings.push(about(project@, "AGENTS.md backed up to "@ + backup@)),
                ..m2
            });
            modified = true;
        },
        AgentsOutcome::Failed(message) => {
            let mut text = lit("AGENTS.md: ");
            push_str(&mut text, message.as_str());
            report.validation_failures.push(about_exec(project, string_of(&text).as_str()));
            assert(report_view(report) =~~= ReportModel {
                validation_failures: m2.validation_failures.push(about(project@, "AGENTS.md: "@ + message@)),
                ..m2
            });
        },
    }
    let ghost m3 = report_view(report);
    if modified {
        report.modified_projects.push(string_of(&chars_of(project)));
        assert(report_view(report) =~~= ReportModel { modified_projects: m3.modified_projects.push(project@), ..m3 });
    } else if todo_missing && history_missing {
        report.skipped_projects.push(SkippedProject {
            project: string_of(&chars_of(project)),
            reason: String::from_str("No recognizable project-state Markdown files; AGENTS.md was already current."),
        });
        assert(report_view(report) =~~= ReportModel {
            skipped_projects: m3.skipped_projects.push((project@, skipped_reason())),
            ..m3
        });
    }
    report
}

// ---------------------------------------------------------------------------
// Finishing the report

/// The texts sorted, each once (`sort` followed by `dedup`).
pub open spec fn sorted_unique(s: Seq<Seq<char>>) -> Seq<Seq<char>>
    decreases s.len(),
{
    if s.len() == 0 {
        Seq::empty()
    } else {
        insert_text(sorted_unique(s.drop_last()), s.last())
    }
}

fn insert_text_exec(sorted: &mut Vec<String>, x: String)
    ensures
        strs(final(sorted)@) == insert_text(strs(old(sorted)@), x@),
{
    let ghost sv = strs(sorted@);
    let mut found = false;
    let mut j: usize = 0;
    while j < sorted.len()
        invariant
            j <= sorted@.len(),
            sv == strs(sorted@),
            found == exists|m: int| 0 <= m < j && sv[m] == x@,
        decreases sorted@.len() - j,
    {
        assert(sv[j as int] == sorted@[j as int]@);
        if sorted[j] == x {
            found = true;
        }
        j += 1;
    }
    proof {
        if found {
            let m = choose|m: int| 0 <= m < sorted@.len() && sv[m] == x@;
            assert(sv.contains(x@));
        } else if sv.contains(x@) {
            let m = choose|m: int| 0 <= m < sv.len() && sv[m] == x@;
            assert(false);
        }
    }
    if !found {
        let xc = chars_of(x.as_str());
        let mut p: usize = 0;
        proof {
            crate::history::lemma_text_pos(sv, x@, 0);
        }
        while p < sorted.len() && text_lt_exec(&chars_of(sorted[p].as_str()), &xc)
            invariant
                p <= sorted@.len(),
                sv == strs(sorted@),
                xc@ == x@,
                text_pos_from(sv, x@, p as int) == text_pos_from(sv, x@, 0),
            decreases sorted@.len() - p,
        {
            assert(sv[p as int] == sorted@[p as int]@);
            p += 1;
        }
        proof {
            if p < sorted@.len() {
                assert(sv[p as int] == sorted@[p as int]@);
            }
        }
        assert(text_pos_from(sv, x@, p as int) == p as int);
        let ghost xv = x@;
        sorted.insert(p, x);
        assert(strs(sorted@) =~= sv.insert(p as int, xv));
    }
}

/// The finished report: the modified projects sorted, each once.
pub fn finish_report(report: MigrationReport) -> (r: MigrationReport)
    ensures
        report_view(r) == (ReportModel {
            modified_projects: sorted_unique(report_view(report).modified_projects),
            ..report_view(report)
        }),
{
    let mut report = report;
    let ghost m = report_view(report);
    let names = report.modified_projects;
    report.modified_projects = Vec::new();
    let ghost nv = strs(names@);
    let mut sorted: Vec<String> = Vec::new();
    let mut i: usize = 0;
    while i < names.len()
        invariant
            i <= names@.len(),
            nv == strs(names@),
            nv == m.modified_projects,
            strs(sorted@) == sorted_unique(nv.subrange(0, i as int)),
        decreases names@.len() - i,
    {
        assert(nv.subrange(0, i + 1).drop_last() =~= nv.subrange(0, i as int));
        assert(nv.subrange(0, i + 1).last() == names@[i as int]@);
        insert_text_exec(&mut sorted, names[i].clone());
        i += 1;
    }
    assert(nv.subrange(0, nv.len() as int) =~= nv);
    report.modified_projects = sorted;
    assert(report_view(report) =~~= ReportModel { modified_projects: sorted_unique(m.modified_projects), ..m });
    report
}

} // verus!
