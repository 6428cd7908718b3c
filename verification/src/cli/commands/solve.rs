//! `solve`: solve open issues of a repository and open one pull request per
//! solved issue.
//!
//! Fetching issues, generating code and opening pull requests are done by the
//! command's driver; this module names the repository and writes the texts
//! that go with each issue's pull request.
use vstd::prelude::*;

use crate::orchestrator::self_mode::lemma_decimal_injective;
use crate::text::{
    chars_eq, chars_of, decimal, decimal_string, lemma_decimal_digits, string_from_range,
};

verus! {

/// How many characters of an issue title the issue table shows.
pub const TITLE_PREVIEW_CHARS: usize = 43;

/// `{owner}/{name}`.
pub fn repo_full_name(owner: &str, name: &str) -> (r: String)
    ensures
        r@ == owner@ + "/"@ + name@,
{
    let mut s = String::from_str(owner);
    s.append("/");
    s.append(name);
    s
}

/// The clone URL of a repository: `https://github.com/{full_name}.git`.
pub fn repo_clone_url(full_name: &str) -> (r: String)
    ensures
        r@ == "https://github.com/"@ + full_name@ + ".git"@,
{
    let mut s = String::from_str("https://github.com/");
    s.append(full_name);
    s.append(".git");
    s
}

/// The first [`TITLE_PREVIEW_CHARS`] characters of an issue title (all of it
/// when it is shorter).
pub fn title_preview(title: &str) -> (r: String)
    ensures
        r@ == if title@.len() <= 43 {
            title@
        } else {
            title@.take(43)
        },
{
    let cs = chars_of(title);
    let end = if cs.len() <= TITLE_PREVIEW_CHARS {
        cs.len()
    } else {
        TITLE_PREVIEW_CHARS
    };
    let r = string_from_range(&cs, 0, end);
    assert(cs@.subrange(0, cs@.len() as int) =~= cs@);
    r
}

/// A pull-request description that closes issue `number`:
/// `Fixes #{number}` and a blank line before the generated description.
pub fn fixes_description(number: u64, description: &str) -> (r: String)
    ensures
        r@ == "Fixes #"@ + decimal(number as nat) + "\n\n"@ + description@,
{
    let mut s = String::from_str("Fixes #");
    let n = decimal_string(number);
    s.append(n.as_str());
    s.append("\n\n");
    s.append(description);
    s
}

/// `fix: resolve #{number} — {title}`.
pub open spec fn resolve_title_text(number: nat, title: Seq<char>) -> Seq<char> {
    "fix: resolve #"@ + decimal(number) + " — "@ + title
}

/// The title of the pull request that solves issue `number`.
pub fn resolve_title(number: u64, title: &str) -> (r: String)
    ensures
        r@ == resolve_title_text(number as nat, title@),
{
    let mut s = String::from_str("fix: resolve #");
    let n = decimal_string(number);
    s.append(n.as_str());
    s.append(" — ");
    s.append(title);
    s
}

/// The commit message of the pull request that solves issue `number`: its
/// title, a blank line, then `Fixes #{number}`.
pub fn resolve_commit_message(number: u64, title: &str) -> (r: String)
    ensures
        r@ == resolve_title_text(number as nat, title@) + "\n\nFixes #"@ + decimal(number as nat),
{
    let mut s = resolve_title(number, title);
    s.append("\n\nFixes #");
    let n = decimal_string(number);
    s.append(n.as_str());
    s
}

/// The texts of a list of strings.
pub open spec fn path_texts(v: Seq<String>) -> Seq<Seq<char>> {
    v.map_values(|s: String| s@)
}

/// The files whose contents the solver already holds for an issue, by path.
#[derive(Debug)]
pub struct FetchedFiles {
    paths: Vec<String>,
}

impl FetchedFiles {
    /// The paths held, in the order they were recorded.
    pub closed spec fn paths(&self) -> Seq<Seq<char>> {
        path_texts(self.paths@)
    }

    /// No file held yet.
    pub fn new() -> (r: Self)
        ensures
            r.paths() == Seq::<Seq<char>>::empty(),
    {
        let r = FetchedFiles { paths: Vec::new() };
        assert(r.paths() =~= Seq::<Seq<char>>::empty());
        r
    }

    /// Whether the content of `path` is to be fetched: the path is not empty
    /// and its content is not held yet.
    pub fn needs_fetch(&self, path: &str) -> (r: bool)
        ensures
            r == (path@.len() > 0 && !self.paths().contains(path@)),
    {
        if path.is_empty() {
            return false;
        }
        let mut k: usize = 0;
        while k < self.paths.len()
            invariant
                k <= self.paths@.len(),
                forall|m: int| 0 <= m < k ==> self.paths()[m] != path@,
            decreases self.paths.len() - k,
        {
            let held = self.paths[k].as_str();
            let a = chars_of(held);
            let b = chars_of(path);
            if chars_eq(&a, &b) {
                assert(self.paths()[k as int] == path@);
                return false;
            }
            k = k + 1;
        }
        true
    }

    /// Records that the content of `path` is now held, so that it is not
    /// fetched again.
    pub fn record(&mut self, path: &str)
        ensures
            final(self).paths() == old(self).paths().push(path@),
            final(self).paths().contains(path@),
    {
        self.paths.push(String::from_str(path));
        assert(path_texts(self.paths@) =~= path_texts(old(self).paths@).push(path@));
        assert(self.paths()[old(self).paths().len() as int] == path@);
    }
}

/// How a `solve` run ends.
#[derive(Debug, Clone, Copy, PartialEq, Eq, Structural)]
pub enum SolveSummary {
    /// Some pull requests were opened.
    PrsCreated,
    /// A dry run that opened nothing.
    DryRun,
    /// No pull request could be opened.
    NoPrs,
}

/// How a `solve` run that opened `prs_created` pull requests ends.
pub fn solve_summary(prs_created: u32, dry_run: bool) -> (r: SolveSummary)
    ensures
        r == if prs_created > 0 {
            SolveSummary::PrsCreated
        } else if dry_run {
            SolveSummary::DryRun
        } else {
            SolveSummary::NoPrs
        },
{
    if prs_created > 0 {
        SolveSummary::PrsCreated
    } else if dry_run {
        SolveSummary::DryRun
    } else {
        SolveSummary::NoPrs
    }
}

/// What the `solve` driver does next for an issue.
#[derive(Debug, Clone, Copy, PartialEq, Eq, Structural)]
pub enum SolveStep {
    /// The solver found nothing actionable: go on with the next issue.
    NoFindings,
    /// Fetch the files the findings point at and generate fixes, then report
    /// how many came out with [`SolveRun::on_fixes`].
    Generate,
    /// No fix could be generated: go on with the next issue.
    GenerationFailed,
    /// A dry run: report the pull request that would be opened, open none.
    WouldCreate,
    /// Open the pull request, then report how it went with [`SolveRun::on_pr`].
    OpenPr,
}

/// The progress of a `solve` run, issue by issue.
#[derive(Debug)]
pub struct SolveRun {
    dry_run: bool,
    prs_created: u32,
    pending_pr: bool,
}

impl SolveRun {
    /// Whether this is a dry run.
    pub closed spec fn is_dry_run(&self) -> bool {
        self.dry_run
    }

    /// The pull requests opened so far.
    pub closed spec fn created(&self) -> nat {
        self.prs_created as nat
    }

    /// Whether a pull request was asked for and its outcome is not reported yet.
    pub closed spec fn awaits_pr(&self) -> bool {
        self.pending_pr
    }

    /// What every step keeps: a dry run opens and awaits no pull request.
    pub closed spec fn wf(&self) -> bool {
        self.dry_run ==> self.prs_created == 0 && !self.pending_pr
    }

    /// A run that has opened nothing yet.
    pub fn start(dry_run: bool) -> (r: Self)
        ensures
            r.wf(),
            r.is_dry_run() == dry_run,
            r.created() == 0,
            !r.awaits_pr(),
    {
        SolveRun { dry_run, prs_created: 0, pending_pr: false }
    }

    /// Decides on an issue for which the solver gave `n_findings` findings:
    /// with none the issue is skipped, else fixes are generated.
    pub fn on_findings(&self, n_findings: usize) -> (r: SolveStep)
        ensures
            r == if n_findings == 0 {
                SolveStep::NoFindings
            } else {
                SolveStep::Generate
            },
    {
        if n_findings == 0 {
            SolveStep::NoFindings
        } else {
            SolveStep::Generate
        }
    }

    /// Decides on an issue for which `n_fixes` fixes were generated: with
    /// none the issue is skipped; in a dry run the pull request is only
    /// reported; otherwise it is opened.
    pub fn on_fixes(&mut self, n_fixes: usize) -> (r: SolveStep)
        requires
            old(self).wf(),
            !old(self).awaits_pr(),
        ensures
            final(self).wf(),
            final(self).is_dry_run() == old(self).is_dry_run(),
            final(self).created() == old(self).created(),
            r == if n_fixes == 0 {
                SolveStep::GenerationFailed
            } else if old(self).is_dry_run() {
                SolveStep::WouldCreate
            } else {
                SolveStep::OpenPr
            },
            final(self).awaits_pr() == (r == SolveStep::OpenPr),
    {
        if n_fixes == 0 {
            SolveStep::GenerationFailed
        } else if self.dry_run {
            SolveStep::WouldCreate
        } else {
            self.pending_pr = true;
            SolveStep::OpenPr
        }
    }

    /// Takes the outcome of the pull request asked for: counted exactly when
    /// it was opened.
    pub fn on_pr(&mut self, opened: bool)
        requires
            old(self).wf(),
            old(self).awaits_pr(),
            old(self).created() < u32::MAX,
        ensures
            final(self).wf(),
            !final(self).awaits_pr(),
            final(self).is_dry_run() == old(self).is_dry_run(),
            final(self).created() == old(self).created() + if opened {
                1int
            } else {
                0int
            },
    {
        self.pending_pr = false;
        if opened {
            self.prs_created = self.prs_created + 1;
        }
    }

    /// The pull requests opened so far.
    pub fn prs_created(&self) -> (r: u32)
        ensures
            r == self.created(),
    {
        self.prs_created
    }

    /// How the run ends. A dry run never opened a pull request.
    pub fn finish(&self) -> (r: SolveSummary)
        requires
            self.wf(),
            !self.awaits_pr(),
        ensures
            self.is_dry_run() ==> self.created() == 0,
            r == if self.created() > 0 {
                SolveSummary::PrsCreated
            } else if self.is_dry_run() {
                SolveSummary::DryRun
            } else {
                SolveSummary::NoPrs
            },
    {
        solve_summary(self.prs_created, self.dry_run)
    }
}

/// The pull request title is `fix: resolve #`, the issue number, ` — ` and
/// the whole issue title, whatever its length.
pub proof fn lemma_resolve_title_parts(number: nat, title: Seq<char>)
    ensures
        ({
            let r = resolve_title_text(number, title);
            let d = decimal(number).len() as int;
            &&& r.len() == 17 + d + title.len()
            &&& r.take(14) == "fix: resolve #"@
            &&& r.subrange(14, 14 + d) == decimal(number)
            &&& r.subrange(14 + d, 17 + d) == " — "@
            &&& r.skip(17 + d) == title
        }),
{
    reveal_strlit("fix: resolve #");
    reveal_strlit(" — ");
    let r = resolve_title_text(number, title);
    let d = decimal(number).len() as int;
    assert(r.take(14) =~= "fix: resolve #"@);
    assert(r.subrange(14, 14 + d) =~= decimal(number));
    assert(r.subrange(14 + d, 17 + d) =~= " — "@);
    assert(r.skip(17 + d) =~= title);
}

/// Different issues, or different titles, give different pull request
/// titles: the title text gives back both the number and the issue title.
pub proof fn lemma_resolve_title_injective(n1: nat, t1: Seq<char>, n2: nat, t2: Seq<char>)
    requires
        resolve_title_text(n1, t1) == resolve_title_text(n2, t2),
    ensures
        n1 == n2,
        t1 == t2,
{
    reveal_strlit(" — ");
    let r = resolve_title_text(n1, t1);
    let d1 = decimal(n1);
    let d2 = decimal(n2);
    lemma_resolve_title_parts(n1, t1);
    lemma_resolve_title_parts(n2, t2);
    lemma_decimal_digits(n1);
    lemma_decimal_digits(n2);
    if d1.len() < d2.len() {
        let k: int = 14 + d1.len() as int;
        assert(r.subrange(k, k + 3)[0] == r[k]);
        assert(r.subrange(14, 14 + d2.len() as int)[k - 14] == r[k]);
        assert((d2[k - 14] as u32) >= 48);
        assert(false);
    }
    if d2.len() < d1.len() {
        let k: int = 14 + d2.len() as int;
        assert(r.subrange(k, k + 3)[0] == r[k]);
        assert(r.subrange(14, 14 + d1.len() as int)[k - 14] == r[k]);
        assert((d1[k - 14] as u32) >= 48);
        assert(false);
    }
    lemma_decimal_injective(n1, n2);
}

} // verus!
