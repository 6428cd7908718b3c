use contribai::cli::commands::clone::{fork_origin_url, login_from_output, plan_clone, CloneError};
use contribai::cli::commands::solve::{
    FetchedFiles, SolveRun, SolveStep,
    fixes_description, repo_clone_url, repo_full_name, resolve_commit_message, resolve_title,
    solve_summary, title_preview, SolveSummary,
};
use contribai::cli::commands::target::{target_mode, TargetMode};
use contribai::cli::commands::update::{installer_command, INSTALL_URL};

#[test]
fn clone_plan_from_url() {
    let plan = plan_clone("  https://github.com/octo/widget.git/ \n", None).unwrap();
    assert_eq!(plan.repo_url, "https://github.com/octo/widget.git");
    assert_eq!(plan.repo_name, "widget");
    assert_eq!(plan.target_dir, "widget");
}

#[test]
fn clone_plan_with_path_and_odd_names() {
    let plan = plan_clone("https://github.com/octo/widget", Some("work/w")).unwrap();
    assert_eq!(plan.repo_name, "widget");
    assert_eq!(plan.target_dir, "work/w");
    let plan = plan_clone("https://host/x/lib.git.git//", None).unwrap();
    assert_eq!(plan.repo_url, "https://host/x/lib.git.git");
    assert_eq!(plan.repo_name, "lib");
    let plan = plan_clone("widget", None).unwrap();
    assert_eq!(plan.repo_name, "widget");
}

#[test]
fn clone_rejects_empty_url() {
    assert_eq!(plan_clone("", None).unwrap_err(), CloneError::EmptyUrl);
    assert_eq!(plan_clone("  ///  ", None).unwrap_err(), CloneError::EmptyUrl);
}

#[test]
fn fork_origin_and_login() {
    assert_eq!(
        fork_origin_url("alice", "widget"),
        "https://github.com/alice/widget.git"
    );
    assert_eq!(login_from_output("alice\n").unwrap(), "alice");
    assert_eq!(
        login_from_output("  \n").unwrap_err(),
        CloneError::UnknownUsername
    );
}

#[test]
fn solve_texts() {
    assert_eq!(repo_full_name("octo", "widget"), "octo/widget");
    assert_eq!(
        repo_clone_url("octo/widget"),
        "https://github.com/octo/widget.git"
    );
    assert_eq!(
        fixes_description(42, "Adds a check."),
        "Fixes #42\n\nAdds a check."
    );
    assert_eq!(
        resolve_title(7, "Crash on empty input"),
        "fix: resolve #7 — Crash on empty input"
    );
    assert_eq!(
        resolve_commit_message(7, "Crash on empty input"),
        "fix: resolve #7 — Crash on empty input\n\nFixes #7"
    );
    assert_eq!(resolve_title(0, "x"), "fix: resolve #0 — x");
}

#[test]
fn solve_title_preview() {
    assert_eq!(title_preview("short"), "short");
    let long = "é".repeat(50);
    assert_eq!(title_preview(&long), "é".repeat(43));
}

#[test]
fn solve_summaries() {
    assert_eq!(solve_summary(2, true), SolveSummary::PrsCreated);
    assert_eq!(solve_summary(0, true), SolveSummary::DryRun);
    assert_eq!(solve_summary(0, false), SolveSummary::NoPrs);
}

#[test]
fn target_modes() {
    assert_eq!(target_mode(true, true), TargetMode::SelfPush);
    assert_eq!(target_mode(false, true), TargetMode::DryRun);
    assert_eq!(target_mode(false, false), TargetMode::Live);
    assert_eq!(TargetMode::SelfPush.label(), "(SELF — push to private repo)");
    assert_eq!(TargetMode::DryRun.label(), "(DRY RUN)");
    assert_eq!(TargetMode::Live.label(), "(LIVE)");
}

#[test]
fn update_command() {
    assert_eq!(
        installer_command(),
        format!("curl -fsSL {} | bash", INSTALL_URL)
    );
}

#[test]
fn solve_fetches_each_file_once() {
    let mut fetched = FetchedFiles::new();
    assert!(!fetched.needs_fetch(""));
    assert!(fetched.needs_fetch("src/a.rs"));
    fetched.record("src/a.rs");
    assert!(!fetched.needs_fetch("src/a.rs"));
    assert!(fetched.needs_fetch("src/b.rs"));
}

#[test]
fn solve_run_steps() {
    use_solve_run(false);
    use_solve_run(true);
}

fn use_solve_run(dry_run: bool) {
    let mut run = SolveRun::start(dry_run);
    assert_eq!(run.on_findings(0), SolveStep::NoFindings);
    assert_eq!(run.on_findings(2), SolveStep::Generate);
    assert_eq!(run.on_fixes(0), SolveStep::GenerationFailed);
    if dry_run {
        assert_eq!(run.on_fixes(1), SolveStep::WouldCreate);
        assert_eq!(run.finish(), SolveSummary::DryRun);
        assert_eq!(run.prs_created(), 0);
    } else {
        assert_eq!(run.on_fixes(1), SolveStep::OpenPr);
        run.on_pr(false);
        assert_eq!(run.prs_created(), 0);
        assert_eq!(run.finish(), SolveSummary::NoPrs);
        assert_eq!(run.on_fixes(3), SolveStep::OpenPr);
        run.on_pr(true);
        assert_eq!(run.prs_created(), 1);
        assert_eq!(run.finish(), SolveSummary::PrsCreated);
    }
}
