use boon::json::{parse_json_document, JsonNode};
use boon::reports::{check_ai_review_reports, validate_ai_review_report};
use boon::tasks::{check_fresh_report, check_playground_report};

const PROMPTS: &str = r#"{"prompts": [
  {"path": "prompts/removal.md", "sha256": "h1", "slug": "old-renderer-removal"},
  {"path": "prompts/arch.md", "sha256": "h2", "slug": "architecture"}
]}"#;

const FRESH: &str = r#"{"deterministic_report_sha256": "d0"}"#;

fn report_text(author: &str, prompt: &str, hash: &str, verdict: &str) -> String {
    format!(
        r#"{{"author": "{author}", "model": "m", "git_commit": "c0",
           "deterministic_report_sha256": "d0", "prompt_file": "{prompt}",
           "prompt_sha256": "{hash}", "verdict": "{verdict}",
           "commands_run": ["x"], "files_examined": ["y"],
           "deterministic_artifacts_examined": ["z"], "findings": ["none"]}}"#
    )
}

fn prompts() -> Vec<(String, String, String)> {
    vec![
        ("prompts/removal.md".to_owned(), "h1".to_owned(), "old-renderer-removal".to_owned()),
        ("prompts/arch.md".to_owned(), "h2".to_owned(), "architecture".to_owned()),
    ]
}

fn parsed(text: &str) -> JsonNode {
    parse_json_document(text).expect("JSON")
}

#[test]
fn a_passing_report_is_accepted() {
    let r = parsed(&report_text("alice", "prompts/removal.md", "h1", "pass"));
    assert_eq!(validate_ai_review_report(&r, "author", "c0", "d0", &prompts()), Ok(()));
}

#[test]
fn report_errors_name_what_is_wrong() {
    let r = parsed(&report_text("alice", "prompts/removal.md", "h1", "pass"));
    assert_eq!(
        validate_ai_review_report(&r, "author", "c1", "d0", &prompts()),
        Err("report git_commit does not match current checkout".to_owned())
    );
    assert_eq!(
        validate_ai_review_report(&r, "author", "c0", "d1", &prompts()),
        Err("report deterministic hash does not match current fresh-artifacts report".to_owned())
    );
    let r = parsed(&report_text("alice", "prompts/other.md", "h1", "pass"));
    assert_eq!(
        validate_ai_review_report(&r, "author", "c0", "d0", &prompts()),
        Err("report references unknown prompt file prompts/other.md".to_owned())
    );
    let r = parsed(&report_text("alice", "prompts/removal.md", "h2", "pass"));
    assert_eq!(
        validate_ai_review_report(&r, "author", "c0", "d0", &prompts()),
        Err("report prompt hash does not match prompt manifest".to_owned())
    );
    let r = parsed(&report_text("alice", "prompts/removal.md", "h1", "fail"));
    assert_eq!(
        validate_ai_review_report(&r, "author", "c0", "d0", &prompts()),
        Err("AI review verdict is not pass".to_owned())
    );
    let r = parsed(&report_text("", "prompts/removal.md", "h1", "pass"));
    assert_eq!(
        validate_ai_review_report(&r, "author", "c0", "d0", &prompts()),
        Err("missing string field author".to_owned())
    );
    let text = report_text("alice", "prompts/removal.md", "h1", "pass").replace(r#"["none"]"#, "[]");
    assert_eq!(
        validate_ai_review_report(&parsed(&text), "author", "c0", "d0", &prompts()),
        Err("report field findings must be a nonempty array".to_owned())
    );
}

fn entry(path: &str, text: String) -> (String, Result<String, String>) {
    (path.to_owned(), Ok(text))
}

#[test]
fn two_authors_covering_both_groups_pass() {
    let reports = vec![
        entry("r/a.json", report_text("alice", "prompts/removal.md", "h1", "pass")),
        entry("r/b.json", report_text("bob", "prompts/arch.md", "h2", "pass")),
    ];
    let coverage = check_ai_review_reports(PROMPTS, FRESH, &Ok("c0".to_owned()), "author", "r", &reports).expect("passes");
    assert_eq!(coverage.review_count, 2);
    assert_eq!(coverage.authors, vec!["alice".to_owned(), "bob".to_owned()]);
    assert_eq!(
        coverage.covered_prompt_slugs,
        vec!["architecture".to_owned(), "old-renderer-removal".to_owned()]
    );
}

#[test]
fn the_report_set_is_checked_as_a_whole() {
    let one = vec![entry("r/a.json", report_text("alice", "prompts/removal.md", "h1", "pass"))];
    assert_eq!(
        check_ai_review_reports(PROMPTS, FRESH, &Ok("c0".to_owned()), "author", "r", &one).unwrap_err(),
        "expected at least two AI review reports in r, found 1"
    );
    let same = vec![
        entry("r/a.json", report_text("alice", "prompts/removal.md", "h1", "pass")),
        entry("r/b.json", report_text("alice", "prompts/arch.md", "h2", "pass")),
    ];
    assert_eq!(
        check_ai_review_reports(PROMPTS, FRESH, &Ok("c0".to_owned()), "author", "r", &same).unwrap_err(),
        "AI assessments must come from at least two distinct authors"
    );
    let narrow = vec![
        entry("r/a.json", report_text("alice", "prompts/removal.md", "h1", "pass")),
        entry("r/b.json", report_text("bob", "prompts/removal.md", "h1", "pass")),
    ];
    assert_eq!(
        check_ai_review_reports(PROMPTS, FRESH, &Ok("c0".to_owned()), "author", "r", &narrow).unwrap_err(),
        "AI reviews must cover both old-renderer removal and native/browser Ply behavior"
    );
    let broken = vec![
        entry("r/a.json", "{".to_owned()),
        entry("r/b.json", report_text("bob", "prompts/arch.md", "h2", "pass")),
    ];
    assert!(check_ai_review_reports(PROMPTS, FRESH, &Ok("c0".to_owned()), "author", "r", &broken)
        .unwrap_err()
        .starts_with("AI review report is not JSON: r/a.json: "));
    let bad = vec![
        entry("r/a.json", report_text("alice", "prompts/removal.md", "h1", "fail")),
        entry("r/b.json", report_text("bob", "prompts/arch.md", "h2", "pass")),
    ];
    assert_eq!(
        check_ai_review_reports(PROMPTS, FRESH, &Ok("c0".to_owned()), "author", "r", &bad).unwrap_err(),
        "invalid AI review report r/a.json: AI review verdict is not pass"
    );
    let unread = vec![("r/a.json".to_owned(), Err("denied".to_owned())), entry("r/b.json", String::new())];
    assert_eq!(
        check_ai_review_reports(PROMPTS, FRESH, &Ok("c0".to_owned()), "author", "r", &unread).unwrap_err(),
        "failed to read r/a.json: denied"
    );
    assert_eq!(
        check_ai_review_reports(PROMPTS, "{}", &Ok("c0".to_owned()), "author", "r", &unread).unwrap_err(),
        "fresh artifact report missing deterministic_report_sha256"
    );
    assert_eq!(
        check_ai_review_reports(r#"{"prompts": [{"path": "p"}]}"#, FRESH, &Ok("c0".to_owned()), "author", "r", &unread)
            .unwrap_err(),
        "prompt missing sha256"
    );
    assert_eq!(
        check_ai_review_reports(PROMPTS, FRESH, &Err("no git".to_owned()), "author", "r", &unread).unwrap_err(),
        "no git"
    );
}

#[test]
fn playground_and_fresh_report_texts() {
    let names: Vec<String> = boon::examples::required_examples().iter().map(|s| format!("\"{s}\"")).collect();
    let good = format!(r#"{{"example_count": 22, "loaded_examples": [{}]}}"#, names.join(","));
    assert_eq!(check_playground_report("ply", "p.json", &good), Ok(()));
    assert_eq!(
        check_playground_report("ply", "p.json", r#"{"example_count": 3, "loaded_examples": []}"#),
        Err("ply playground loaded 3 examples; expected 22".to_owned())
    );
    assert_eq!(
        check_playground_report("ply", "p.json", r#"{"example_count": 22.0}"#),
        Err("playground artifact missing example_count".to_owned())
    );
    let short = r#"{"example_count":22,"loaded_examples":["counter"]}"#;
    assert_eq!(
        check_playground_report("ply", "p.json", short),
        Err(format!("ply playground did not load required example counter_hold: {short}"))
    );
    assert!(check_playground_report("ply", "p.json", "nope").unwrap_err().starts_with("playground artifact is not JSON: p.json: "));
    let fresh = r#"{"source_hash": "s", "artifact_hashes": {"headless-matrix.json": "a",
        "native-smoke.json": "b", "browser-smoke.json": "c", "no-old-renderers.json": "d"}}"#;
    assert_eq!(check_fresh_report(fresh, "s"), Ok(()));
    assert_eq!(check_fresh_report(fresh, "t"), Err("fresh artifact report source hash is stale".to_owned()));
    let partial = r#"{"source_hash": "s", "artifact_hashes": {"headless-matrix.json": "a", "native-smoke.json": 1}}"#;
    assert_eq!(
        check_fresh_report(partial, "s"),
        Err("fresh artifact report missing hash for native-smoke.json".to_owned())
    );
}
