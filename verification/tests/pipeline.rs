use std::collections::HashSet;

use contribai::orchestrator::keywords::similar_lowercased;
use contribai::orchestrator::paths::{
    keeps_finding_path, passes_finding_filters, PROTECTED_META_FILES, SKIP_DIRECTORIES,
    SKIP_EXTENSIONS,
};
use contribai::orchestrator::pipeline::{
    titles_similar, AnalysisResult, ContribPipeline, Finding, FindingStep, GenerationOutcome,
    PipelineConfig, PipelineResult, RepoRun, RunStart,
};

#[test]
fn test_titles_similar() {
    assert!(titles_similar(
        "SQL injection vulnerability fix",
        "SQL injection vulnerability"
    ));
    assert!(!titles_similar(
        "Add logging middleware",
        "Fix database connection pooling"
    ));
}

#[test]
fn test_titles_similar_empty() {
    assert!(!titles_similar("", "something"));
    assert!(!titles_similar("a", "b")); // too short
}

#[test]
fn test_protected_files() {
    let protected: HashSet<&str> = PROTECTED_META_FILES.iter().copied().collect();
    assert!(protected.contains("CONTRIBUTING.md"));
    assert!(protected.contains("LICENSE"));
    assert!(!protected.contains("src/main.py"));
}

#[test]
fn test_skip_directories() {
    assert!(SKIP_DIRECTORIES.contains(&"test"));
    assert!(SKIP_DIRECTORIES.contains(&"vendor"));
    assert!(!SKIP_DIRECTORIES.contains(&"src"));
}

#[test]
fn titles_similar_ignores_case() {
    assert!(titles_similar("SQL Injection Fix", "sql injection fix"));
    assert!(titles_similar("FIX NULL POINTER", "fix null pointer crash"));
}

#[test]
fn titles_similar_is_symmetric() {
    let titles = [
        "SQL injection vulnerability fix",
        "SQL injection vulnerability",
        "Add logging middleware",
        "Fix database connection pooling",
        "fix the pool",
        "",
    ];
    for a in titles {
        for b in titles {
            assert_eq!(titles_similar(a, b), titles_similar(b, a));
        }
    }
}

#[test]
fn title_is_similar_to_itself_when_it_has_keywords() {
    assert!(titles_similar("Update README badges", "Update README badges"));
    assert!(!titles_similar("to a of", "to a of"));
    assert!(!titles_similar("the and for", "the and for"));
}

#[test]
fn stop_words_and_short_words_are_no_keywords() {
    assert!(!similar_lowercased("the and for", "the and for"));
    assert!(!similar_lowercased("ab cd", "ab cd"));
    assert!(similar_lowercased("abc", "abc"));
}

#[test]
fn word_length_counts_bytes() {
    // two characters, four bytes
    assert!(similar_lowercased("éé", "éé"));
    assert!(!similar_lowercased("ab", "ab"));
}

#[test]
fn repeated_words_count_once() {
    // {fix, crash} vs {fix, leak, memory}: one shared of two
    assert!(!similar_lowercased("fix fix crash", "fix memory leak"));
    // {fix, crash} vs {fix, crash, now}: two shared of two
    assert!(similar_lowercased("fix crash crash", "fix crash now"));
}

#[test]
fn exactly_half_is_not_similar() {
    assert!(!similar_lowercased("alpha beta", "alpha gamma"));
    assert!(similar_lowercased("alpha beta gamma", "alpha beta delta"));
}

#[test]
fn unicode_whitespace_separates_words() {
    assert!(similar_lowercased("alpha\u{3000}beta", "alpha beta"));
    assert!(similar_lowercased("alpha\tbeta\n", "  alpha   beta"));
    assert!(!similar_lowercased("alpha-beta", "alpha beta"));
}

#[test]
fn protected_and_skipped_paths() {
    assert!(!keeps_finding_path("CONTRIBUTING.md"));
    assert!(!keeps_finding_path("LICENSE"));
    assert!(!keeps_finding_path(".github/CODEOWNERS"));
    assert!(keeps_finding_path("src/main.py"));
    assert!(!keeps_finding_path("docs/guide.py"));
    assert!(!keeps_finding_path("src/tests/helpers.rs"));
    assert!(!keeps_finding_path("pkg/node_modules/x/index.js"));
    assert!(keeps_finding_path("src/testing_utils.rs"));
    assert!(keeps_finding_path("src/latest/app.rs"));
}

#[test]
fn skipped_extensions_ignore_case() {
    assert!(!keeps_finding_path("notes.md"));
    assert!(!keeps_finding_path("README.MD"));
    assert!(!keeps_finding_path("config/settings.Yaml"));
    assert!(!keeps_finding_path("data.json"));
    assert!(keeps_finding_path("script.sh"));
    assert!(keeps_finding_path(".gitignore"));
    assert!(keeps_finding_path("Makefile"));
    assert!(!keeps_finding_path("docs2/x.md"));
    assert!(keeps_finding_path("docs2/x.md.py"));
    assert!(keeps_finding_path("src/.md"));
}

#[test]
fn filters_given_the_lowered_extension() {
    assert!(passes_finding_filters("src/lib.rs", Some("rs")));
    assert!(!passes_finding_filters("src/lib.rs", Some("toml")));
    assert!(passes_finding_filters("src/lib.rs", None));
    assert!(!passes_finding_filters("vendor/lib.rs", Some("rs")));
    assert!(!passes_finding_filters("LICENSE.txt", None));
    assert_eq!(SKIP_EXTENSIONS.len(), 9);
}

fn finding(title: &str, path: &str) -> Finding {
    Finding {
        title: title.to_string(),
        file_path: path.to_string(),
    }
}

fn config(max_prs: usize, max_repos: usize) -> PipelineConfig {
    PipelineConfig {
        max_prs_per_day: max_prs,
        max_repos_per_run: max_repos,
    }
}

#[test]
fn filter_findings_keeps_order_and_drops_skipped() {
    let pipeline = ContribPipeline::new(&config(5, 3));
    let analysis = AnalysisResult {
        findings: vec![
            finding("a", "src/a.py"),
            finding("b", "README.md"),
            finding("c", "tests/test_a.py"),
            finding("d", "lib/b.py"),
            finding("e", "LICENSE"),
        ],
    };
    let kept = pipeline.filter_findings(&analysis);
    let titles: Vec<&str> = kept.iter().map(|f| f.title.as_str()).collect();
    assert_eq!(titles, vec!["a", "d"]);
    let again = pipeline.filter_findings(&AnalysisResult { findings: kept.clone() });
    let again_titles: Vec<&str> = again.iter().map(|f| f.title.as_str()).collect();
    assert_eq!(again_titles, titles);
}

#[test]
fn filter_findings_drops_repeated_findings() {
    let pipeline = ContribPipeline::new(&config(5, 3));
    let analysis = AnalysisResult {
        findings: vec![
            finding("fix a", "src/a.py"),
            finding("fix b", "src/a.py"),
            finding("fix a", "src/a.py"),
            finding("fix a", "src/b.py"),
            finding("fix a", "docs/a.py"),
            finding("fix b", "src/a.py"),
        ],
    };
    let kept = pipeline.filter_findings(&analysis);
    let pairs: Vec<(&str, &str)> = kept
        .iter()
        .map(|f| (f.title.as_str(), f.file_path.as_str()))
        .collect();
    assert_eq!(
        pairs,
        vec![("fix a", "src/a.py"), ("fix b", "src/a.py"), ("fix a", "src/b.py")]
    );
}

#[test]
fn run_start_respects_daily_limit() {
    let pipeline = ContribPipeline::new(&config(5, 3));
    assert_eq!(pipeline.start_run(5, false), RunStart::LimitReached);
    assert_eq!(
        pipeline.start_run(5, true),
        RunStart::Proceed { remaining_prs: 0 }
    );
    assert_eq!(
        pipeline.start_run(2, false),
        RunStart::Proceed { remaining_prs: 3 }
    );
    assert_eq!(pipeline.repos_to_process(10), 3);
    assert_eq!(pipeline.repos_to_process(2), 2);
}

#[test]
fn repo_run_counts_contributions_and_prs() {
    let mut run = RepoRun::start(6, 4, 3, false);
    assert_eq!(run.findings_to_attempt(), 3);
    assert_eq!(
        run.on_generation(GenerationOutcome::Generated { passed_quality: true }),
        FindingStep::OpenPr
    );
    run.on_pr(Ok(()));
    assert_eq!(
        run.on_generation(GenerationOutcome::Generated { passed_quality: false }),
        FindingStep::Next
    );
    assert_eq!(
        run.on_generation(GenerationOutcome::Generated { passed_quality: true }),
        FindingStep::OpenPr
    );
    run.on_pr(Err("rate limited".to_string()));
    let result = run.finish();
    assert_eq!(result.findings_total, 6);
    assert_eq!(result.contributions_generated, 2);
    assert_eq!(result.prs_created, 1);
    assert_eq!(result.repos_analyzed, 0);
    assert_eq!(result.errors, vec!["PR creation failed: rate limited".to_string()]);
}

#[test]
fn dry_run_never_opens_prs() {
    let mut run = RepoRun::start(2, 2, 5, true);
    assert_eq!(run.findings_to_attempt(), 2);
    assert_eq!(
        run.on_generation(GenerationOutcome::Generated { passed_quality: true }),
        FindingStep::Next
    );
    assert_eq!(
        run.on_generation(GenerationOutcome::Failed {
            error: "timeout".to_string()
        }),
        FindingStep::Next
    );
    let result = run.finish();
    assert_eq!(result.contributions_generated, 1);
    assert_eq!(result.prs_created, 0);
    assert_eq!(result.errors, vec!["Generation error: timeout".to_string()]);
}

#[test]
fn nothing_generated_changes_nothing() {
    let mut run = RepoRun::start(1, 1, 1, false);
    assert_eq!(
        run.on_generation(GenerationOutcome::NothingGenerated),
        FindingStep::Next
    );
    let result = run.finish();
    assert_eq!(result.contributions_generated, 0);
    assert!(result.errors.is_empty());
}

#[test]
fn run_totals_add_up() {
    let mut total = PipelineResult::default();
    let repo = PipelineResult {
        repos_analyzed: 0,
        findings_total: 4,
        contributions_generated: 2,
        prs_created: 1,
        errors: vec!["Generation error: x".to_string()],
    };
    total.absorb_repo(&repo);
    total.absorb_repo(&repo);
    total.record_repo_failure("octo/repo", "not found");
    assert_eq!(total.repos_analyzed, 2);
    assert_eq!(total.findings_total, 8);
    assert_eq!(total.contributions_generated, 4);
    assert_eq!(total.prs_created, 2);
    assert_eq!(
        total.errors,
        vec![
            "Generation error: x".to_string(),
            "Generation error: x".to_string(),
            "Error processing octo/repo: not found".to_string(),
        ]
    );
}
