use projector::models::DocumentStatus;
use projector::startup::{extract_http_urls, load_plan, parse_startup, trim_url_ending_exec};

#[test]
fn parses_each_powershell_fence_as_an_independent_script() {
    let plan = parse_startup(
        "# Start\n\n```powershell\nnpm run backend\n```\n\n~~~PowerShell\nnpm run frontend\n~~~\n",
    );
    assert_eq!(plan.scripts, vec!["npm run backend".to_string(), "npm run frontend".to_string()]);
}

#[test]
fn ignores_other_code_fences_and_urls_inside_scripts() {
    let plan = parse_startup(
        "```bash\nnpm start\n```\n```powershell\nnpm run dev -- --url http://internal.test\n```\n",
    );
    assert_eq!(plan.scripts, vec!["npm run dev -- --url http://internal.test".to_string()]);
    assert!(plan.urls.is_empty());
}

#[test]
fn extracts_and_deduplicates_http_websites_from_startup_prose() {
    let plan = parse_startup(
        "Open [frontend](http://127.0.0.1:3000), https://example.com/path?q=1, and <http://127.0.0.1:3000>.\n",
    );
    assert_eq!(
        plan.urls,
        vec!["http://127.0.0.1:3000".to_string(), "https://example.com/path?q=1".to_string()]
    );
}

#[test]
fn loads_a_startup_document_with_scripts_and_links() {
    let plan = load_plan(
        DocumentStatus::Available,
        Some("```powershell\nnpm run dev\n```\n\n[App](http://127.0.0.1:3000)\n".into()),
        false,
        None,
    )
    .unwrap();
    assert_eq!(plan.scripts, vec!["npm run dev".to_string()]);
    assert_eq!(plan.urls, vec!["http://127.0.0.1:3000".to_string()]);
}

#[test]
fn rejects_startup_documents_without_runnable_content() {
    assert_eq!(
        load_plan(DocumentStatus::Available, Some("# Setup only\n".into()), false, None).unwrap_err(),
        "STARTUP.md has no fenced PowerShell scripts or HTTP(S) website links"
    );
    assert_eq!(load_plan(DocumentStatus::Missing, None, false, None).unwrap_err(), "STARTUP.md was not found");
    assert_eq!(
        load_plan(DocumentStatus::Error, None, false, None).unwrap_err(),
        "STARTUP.md could not be read"
    );
    assert_eq!(
        load_plan(DocumentStatus::Available, Some("https://a.test".into()), true, None).unwrap_err(),
        "STARTUP.md is larger than 2 MB and cannot be run safely"
    );
}

#[test]
fn unclosed_powershell_fence_runs_to_the_end() {
    let plan = parse_startup("```powershell\nnpm test\n");
    assert_eq!(plan.scripts, vec!["npm test".to_string()]);
}

#[test]
fn link_endings_drop_punctuation_and_unbalanced_parentheses() {
    let trimmed: String = trim_url_ending_exec(&"https://a.test/x_(y))).,".chars().collect::<Vec<_>>())
        .into_iter()
        .collect();
    assert_eq!(trimmed, "https://a.test/x_(y)");
    assert_eq!(extract_http_urls("see https://a.test. and https://a.test"), vec!["https://a.test".to_string()]);
}
