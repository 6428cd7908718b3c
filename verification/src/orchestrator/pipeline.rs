//! The decisions of the contribution pipeline: discover, analyze, generate, PR.
//!
//! The pipeline's outside work (searching GitHub, analysing a repository with
//! an LLM, generating code, opening pull requests, recording runs) is done by
//! its driver; this module decides what happens next at each step and keeps
//! the counts of a run.
use vstd::prelude::*;

use super::keywords::{
    keyword_set, keywords_similar, lemma_contained_title_keywords_similar,
    lemma_similarity_reflexive, lemma_similarity_symmetric,
    similar_lowercased,
};
use super::paths::{keeps_finding_path, keeps_path};
use crate::text::{str_lowercase, to_lowercase};

verus! {

broadcast use vstd::seq_lib::group_seq_properties;

/// One problem reported by the analysis of a repository.
#[derive(Debug, Clone)]
pub struct Finding {
    /// Short description of the problem.
    pub title: String,
    /// Repository-relative path of the file it is in.
    pub file_path: String,
}

/// The findings of one repository analysis.
#[derive(Debug, Clone)]
pub struct AnalysisResult {
    /// All findings, in the order the analysis reported them.
    pub findings: Vec<Finding>,
}

/// Counts of a pipeline run (or of the processing of one repository).
#[derive(Debug, Clone)]
pub struct PipelineResult {
    /// Repositories processed to the end.
    pub repos_analyzed: usize,
    /// Findings reported by the analyses.
    pub findings_total: usize,
    /// Contributions generated that passed the quality check.
    pub contributions_generated: usize,
    /// Pull requests opened.
    pub prs_created: usize,
    /// Messages of the errors met along the way.
    pub errors: Vec<String>,
}

/// The texts of a list of strings.
pub open spec fn texts(v: Seq<String>) -> Seq<Seq<char>> {
    v.map_values(|s: String| s@)
}

impl PipelineResult {
    /// Every pull request comes from a generated contribution, and every
    /// contribution from a reported finding.
    pub open spec fn consistent(&self) -> bool {
        self.prs_created <= self.contributions_generated <= self.findings_total
    }

    /// Adds the result of one processed repository to the run: one more
    /// repository analysed, its counts added, its errors appended.
    pub fn absorb_repo(&mut self, repo: &PipelineResult)
        requires
            old(self).repos_analyzed + 1 <= usize::MAX,
            old(self).findings_total + repo.findings_total <= usize::MAX,
            old(self).contributions_generated + repo.contributions_generated <= usize::MAX,
            old(self).prs_created + repo.prs_created <= usize::MAX,
        ensures
            final(self).repos_analyzed == old(self).repos_analyzed + 1,
            final(self).findings_total == old(self).findings_total + repo.findings_total,
            final(self).contributions_generated == old(self).contributions_generated
                + repo.contributions_generated,
            final(self).prs_created == old(self).prs_created + repo.prs_created,
            final(self).errors@ == old(self).errors@ + repo.errors@,
            old(self).consistent() && repo.consistent() ==> final(self).consistent(),
    {
        self.repos_analyzed = self.repos_analyzed + 1;
        self.findings_total = self.findings_total + repo.findings_total;
        self.contributions_generated = self.contributions_generated + repo.contributions_generated;
        self.prs_created = self.prs_created + repo.prs_created;
        let ghost start = self.errors@;
        let mut i: usize = 0;
        while i < repo.errors.len()
            invariant
                i <= repo.errors@.len(),
                self.errors@ == start + repo.errors@.take(i as int),
                self.repos_analyzed == old(self).repos_analyzed + 1,
                self.findings_total == old(self).findings_total + repo.findings_total,
                self.contributions_generated == old(self).contributions_generated
                    + repo.contributions_generated,
                self.prs_created == old(self).prs_created + repo.prs_created,
            decreases repo.errors.len() - i,
        {
            self.errors.push(repo.errors[i].clone());
            assert(repo.errors@.take(i + 1) =~= repo.errors@.take(i as int).push(
                repo.errors@[i as int],
            ));
            i = i + 1;
        }
        assert(repo.errors@.take(repo.errors@.len() as int) =~= repo.errors@);
    }

    /// Records that processing the repository `full_name` failed with
    /// `error`: the message `Error processing {full_name}: {error}` is
    /// appended and no count changes.
    pub fn record_repo_failure(&mut self, full_name: &str, error: &str)
        ensures
            final(self).repos_analyzed == old(self).repos_analyzed,
            final(self).findings_total == old(self).findings_total,
            final(self).contributions_generated == old(self).contributions_generated,
            final(self).prs_created == old(self).prs_created,
            texts(final(self).errors@) == texts(old(self).errors@).push(
                "Error processing "@ + full_name@ + ": "@ + error@,
            ),
    {
        let mut msg = String::from_str("Error processing ");
        msg.append(full_name);
        msg.append(": ");
        msg.append(error);
        self.errors.push(msg);
        assert(texts(self.errors@) =~= texts(old(self).errors@).push(
            "Error processing "@ + full_name@ + ": "@ + error@,
        ));
    }
}

impl Default for PipelineResult {
    /// The result of a run that has done nothing yet.
    fn default() -> (r: Self)
        ensures
            r.repos_analyzed == 0,
            r.findings_total == 0,
            r.contributions_generated == 0,
            r.prs_created == 0,
            r.errors@.len() == 0,
    {
        PipelineResult {
            repos_analyzed: 0,
            findings_total: 0,
            contributions_generated: 0,
            prs_created: 0,
            errors: Vec::new(),
        }
    }
}

/// The settings of the pipeline that its decisions read.
#[derive(Debug, Clone, Copy, PartialEq, Eq, Structural)]
pub struct PipelineConfig {
    /// At most this many pull requests a day.
    pub max_prs_per_day: usize,
    /// At most this many repositories per run.
    pub max_repos_per_run: usize,
}

/// How a run starts, given the pull requests already opened today.
#[derive(Debug, Clone, Copy, PartialEq, Eq, Structural)]
pub enum RunStart {
    /// The daily limit is reached and this is no dry run: nothing is done.
    LimitReached,
    /// The run goes on; each repository may open up to `remaining_prs`.
    Proceed { remaining_prs: usize },
}

/// Main orchestrator for the contribution pipeline.
pub struct ContribPipeline {
    config: PipelineConfig,
}

impl ContribPipeline {
    /// The settings the pipeline was made with.
    pub closed spec fn settings(&self) -> PipelineConfig {
        self.config
    }

    /// A pipeline with the given settings.
    pub fn new(config: &PipelineConfig) -> (r: Self)
        ensures
            r.settings() == *config,
    {
        ContribPipeline { config: *config }
    }

    /// Decides how a run starts when `today_prs` pull requests were opened
    /// today: the remaining budget is the daily limit minus those, and a run
    /// that is no dry run stops when nothing remains.
    pub fn start_run(&self, today_prs: usize, dry_run: bool) -> (r: RunStart)
        requires
            today_prs <= self.settings().max_prs_per_day,
        ensures
            r == (if self.settings().max_prs_per_day - today_prs == 0 && !dry_run {
                RunStart::LimitReached
            } else {
                RunStart::Proceed {
                    remaining_prs: (self.settings().max_prs_per_day - today_prs) as usize,
                }
            }),
    {
        let remaining = self.config.max_prs_per_day - today_prs;
        if remaining == 0 && !dry_run {
            RunStart::LimitReached
        } else {
            RunStart::Proceed { remaining_prs: remaining }
        }
    }

    /// How many of the `found` repositories a run processes: the first
    /// `max_repos_per_run` of them.
    pub fn repos_to_process(&self, found: usize) -> (r: usize)
        ensures
            r == if found <= self.settings().max_repos_per_run {
                found
            } else {
                self.settings().max_repos_per_run
            },
    {
        if found <= self.config.max_repos_per_run {
            found
        } else {
            self.config.max_repos_per_run
        }
    }

    /// Filters findings: drops those on protected files, on files with a
    /// skipped extension and under skipped directories, and drops a finding
    /// that repeats one already kept (same file and title). The others are
    /// kept in their order.
    pub fn filter_findings(&self, analysis: &AnalysisResult) -> (r: Vec<Finding>)
        ensures
            r@ == kept_findings(analysis.findings@),
            forall|i: int| 0 <= i < r@.len() ==> keeps_path(#[trigger] r@[i].file_path@),
            forall|i: int, j: int|
                0 <= i < j < r@.len() ==> !same_finding(#[trigger] r@[i], #[trigger] r@[j]),
            forall|i: int|
                0 <= i < analysis.findings@.len() && keeps_path(
                    #[trigger] analysis.findings@[i].file_path@,
                ) ==> holds_finding(r@, analysis.findings@[i]),
            forall|i: int| 0 <= i < r@.len() ==> analysis.findings@.contains(#[trigger] r@[i]),
    {
        let ghost pred = |f: Finding| keeps_path(f.file_path@);
        let mut out: Vec<Finding> = Vec::new();
        let mut i: usize = 0;
        while i < analysis.findings.len()
            invariant
                i <= analysis.findings@.len(),
                pred == (|f: Finding| keeps_path(f.file_path@)),
                out@ == dedup_findings(analysis.findings@.take(i as int).filter(pred)),
            decreases analysis.findings.len() - i,
        {
            let f = &analysis.findings[i];
            let keep = keeps_finding_path(f.file_path.as_str());
            let ghost before = analysis.findings@.take(i as int).filter(pred);
            proof {
                assert(analysis.findings@.take(i + 1) =~= analysis.findings@.take(i as int).push(
                    analysis.findings@[i as int],
                ));
                analysis.findings@.take(i as int).lemma_filter_push(
                    analysis.findings@[i as int],
                    pred,
                );
                assert(before.push(*f).drop_last() =~= before);
            }
            if keep {
                let mut already = false;
                let mut k: usize = 0;
                while k < out.len()
                    invariant
                        k <= out@.len(),
                        already == exists|m: int| 0 <= m < k && same_finding(#[trigger] out@[m], *f),
                    decreases out.len() - k,
                {
                    if out[k].file_path == f.file_path && out[k].title == f.title {
                        already = true;
                    }
                    k = k + 1;
                }
                if !already {
                    out.push(Finding { title: f.title.clone(), file_path: f.file_path.clone() });
                }
            }
            i = i + 1;
        }
        assert(analysis.findings@.take(analysis.findings@.len() as int) =~= analysis.findings@);
        proof {
            let s = analysis.findings@;
            let fl = s.filter(pred);
            lemma_dedup_findings_properties(fl);
            assert forall|i: int| 0 <= i < out@.len() implies keeps_path(
                #[trigger] out@[i].file_path@,
            ) && s.contains(out@[i]) by {
                let j = choose|j: int| 0 <= j < fl.len() && fl[j] == out@[i];
                s.lemma_filter_pred(pred, j);
                s.lemma_filter_contains_rev(pred, out@[i]);
            }
            assert forall|i: int|
                0 <= i < s.len() && keeps_path(#[trigger] s[i].file_path@) implies holds_finding(
                out@,
                s[i],
            ) by {
                s.lemma_filter_contains(pred, i);
                let j = choose|j: int| 0 <= j < fl.len() && fl[j] == s[i];
                assert(holds_finding(out@, fl[j]));
            }
        }
        out
    }
}

/// Whether two findings are the same finding: same file and same title.
pub open spec fn same_finding(a: Finding, b: Finding) -> bool {
    a.file_path@ == b.file_path@ && a.title@ == b.title@
}

/// Whether `d` holds a finding that is the same as `f`.
pub open spec fn holds_finding(d: Seq<Finding>, f: Finding) -> bool {
    exists|k: int| 0 <= k < d.len() && same_finding(#[trigger] d[k], f)
}

/// `s` without the findings that repeat an earlier one, in order.
pub open spec fn dedup_findings(s: Seq<Finding>) -> Seq<Finding>
    decreases s.len(),
{
    if s.len() == 0 {
        s
    } else {
        let d = dedup_findings(s.drop_last());
        if holds_finding(d, s.last()) {
            d
        } else {
            d.push(s.last())
        }
    }
}

/// The findings the pipeline works on: those that pass the path filters,
/// each kept once, in their order.
pub open spec fn kept_findings(s: Seq<Finding>) -> Seq<Finding> {
    dedup_findings(s.filter(|f: Finding| keeps_path(f.file_path@)))
}

proof fn lemma_dedup_findings_properties(s: Seq<Finding>)
    ensures
        forall|i: int, j: int|
            0 <= i < j < dedup_findings(s).len() ==> !same_finding(
                #[trigger] dedup_findings(s)[i],
                #[trigger] dedup_findings(s)[j],
            ),
        forall|i: int| 0 <= i < s.len() ==> holds_finding(dedup_findings(s), #[trigger] s[i]),
        forall|i: int|
            0 <= i < dedup_findings(s).len() ==> s.contains(#[trigger] dedup_findings(s)[i]),
    decreases s.len(),
{
    if s.len() > 0 {
        let t = s.drop_last();
        lemma_dedup_findings_properties(t);
        let d = dedup_findings(t);
        let x = s.last();
        let r = dedup_findings(s);
        assert forall|i: int| 0 <= i < s.len() implies holds_finding(r, #[trigger] s[i]) by {
            if i < s.len() - 1 {
                assert(s[i] == t[i]);
                assert(holds_finding(d, t[i]));
                let k = choose|k: int| 0 <= k < d.len() && same_finding(#[trigger] d[k], t[i]);
                assert(r[k] == d[k]);
            } else if !holds_finding(d, x) {
                assert(same_finding(r[d.len() as int], x));
            }
        }
        assert forall|i: int| 0 <= i < r.len() implies s.contains(#[trigger] r[i]) by {
            if i < d.len() {
                assert(t.contains(d[i]));
                let k = choose|k: int| 0 <= k < t.len() && t[k] == d[i];
                assert(s[k] == t[k]);
            } else {
                assert(s[s.len() - 1] == x);
            }
        }
        if !holds_finding(d, x) {
            assert forall|i: int, j: int| 0 <= i < j < r.len() implies !same_finding(
                #[trigger] r[i],
                #[trigger] r[j],
            ) by {
                if j == d.len() {
                    assert(r[i] == d[i]);
                    if same_finding(d[i], x) {
                        assert(holds_finding(d, x));
                    }
                } else {
                    assert(r[i] == d[i] && r[j] == d[j]);
                }
            }
        }
    }
}

proof fn lemma_dedup_findings_of_distinct(s: Seq<Finding>)
    requires
        forall|i: int, j: int| 0 <= i < j < s.len() ==> !same_finding(#[trigger] s[i], #[trigger] s[j]),
    ensures
        dedup_findings(s) == s,
    decreases s.len(),
{
    if s.len() > 0 {
        let t = s.drop_last();
        assert forall|i: int, j: int| 0 <= i < j < t.len() implies !same_finding(
            #[trigger] t[i],
            #[trigger] t[j],
        ) by {
            assert(t[i] == s[i] && t[j] == s[j]);
        }
        lemma_dedup_findings_of_distinct(t);
        if holds_finding(t, s.last()) {
            let k = choose|k: int| 0 <= k < t.len() && same_finding(#[trigger] t[k], s.last());
            assert(s[k] == t[k]);
            assert(!same_finding(s[k], s[s.len() - 1]));
        }
        assert(t.push(s.last()) =~= s);
    }
}

proof fn lemma_filter_of_passing(s: Seq<Finding>)
    requires
        forall|i: int| 0 <= i < s.len() ==> keeps_path(#[trigger] s[i].file_path@),
    ensures
        s.filter(|f: Finding| keeps_path(f.file_path@)) == s,
    decreases s.len(),
{
    reveal(Seq::filter);
    if s.len() > 0 {
        let t = s.drop_last();
        assert forall|i: int| 0 <= i < t.len() implies keeps_path(#[trigger] t[i].file_path@) by {
            assert(t[i] == s[i]);
        }
        lemma_filter_of_passing(t);
        assert(s[s.len() - 1] == s.last());
        assert(t.push(s.last()) =~= s);
    }
}

/// Filtering the kept findings again keeps them all: filtering is idempotent.
pub proof fn lemma_filter_findings_idempotent(findings: Seq<Finding>)
    ensures
        kept_findings(kept_findings(findings)) == kept_findings(findings),
{
    let pred = |f: Finding| keeps_path(f.file_path@);
    let fl = findings.filter(pred);
    let k = kept_findings(findings);
    lemma_dedup_findings_properties(fl);
    assert forall|i: int| 0 <= i < k.len() implies keeps_path(#[trigger] k[i].file_path@) by {
        assert(fl.contains(k[i]));
        let j = choose|j: int| 0 <= j < fl.len() && fl[j] == k[i];
        findings.lemma_filter_pred(pred, j);
    }
    lemma_filter_of_passing(k);
    lemma_dedup_findings_of_distinct(k);
}

/// Findings on kept paths of which no two are the same are all kept, in
/// their order.
pub proof fn lemma_distinct_kept_findings_unchanged(findings: Seq<Finding>)
    requires
        forall|i: int| 0 <= i < findings.len() ==> keeps_path(#[trigger] findings[i].file_path@),
        forall|i: int, j: int|
            0 <= i < j < findings.len() ==> !same_finding(
                #[trigger] findings[i],
                #[trigger] findings[j],
            ),
    ensures
        kept_findings(findings) == findings,
{
    lemma_filter_of_passing(findings);
    lemma_dedup_findings_of_distinct(findings);
}

/// One more finding is appended to the kept findings exactly when its path
/// is kept and no earlier finding has the same file and title; otherwise the
/// kept findings stay as they were.
pub proof fn lemma_kept_findings_push(findings: Seq<Finding>, x: Finding)
    ensures
        kept_findings(findings.push(x)) == if keeps_path(x.file_path@) && !holds_finding(
            findings,
            x,
        ) {
            kept_findings(findings).push(x)
        } else {
            kept_findings(findings)
        },
{
    let pred = |f: Finding| keeps_path(f.file_path@);
    let fl = findings.filter(pred);
    findings.lemma_filter_push(x, pred);
    if keeps_path(x.file_path@) {
        let t = fl.push(x);
        assert(t.drop_last() =~= fl);
        assert(t.last() == x);
        let d = dedup_findings(fl);
        lemma_dedup_findings_properties(fl);
        if holds_finding(d, x) {
            let k = choose|k: int| 0 <= k < d.len() && same_finding(#[trigger] d[k], x);
            assert(fl.contains(d[k]));
            findings.lemma_filter_contains_rev(pred, d[k]);
            let m = choose|m: int| 0 <= m < findings.len() && findings[m] == d[k];
            assert(same_finding(findings[m], x));
            assert(holds_finding(findings, x));
        }
        if holds_finding(findings, x) {
            let m = choose|m: int| 0 <= m < findings.len() && same_finding(#[trigger] findings[m], x);
            findings.lemma_filter_contains(pred, m);
            let i = choose|i: int| 0 <= i < fl.len() && fl[i] == findings[m];
            assert(holds_finding(d, fl[i]));
            let k = choose|k: int| 0 <= k < d.len() && same_finding(#[trigger] d[k], fl[i]);
            assert(same_finding(d[k], x));
        }
    } else {
        if holds_finding(findings, x) {
            let m = choose|m: int| 0 <= m < findings.len() && same_finding(#[trigger] findings[m], x);
            assert(findings[m].file_path@ == x.file_path@);
        }
    }
}

/// What generating a contribution for one finding gave.
#[derive(Debug, Clone)]
pub enum GenerationOutcome {
    /// A contribution was generated; `passed_quality` tells whether it passed
    /// the quality check.
    Generated { passed_quality: bool },
    /// The generator produced nothing for the finding.
    NothingGenerated,
    /// Generation failed with this error message.
    Failed { error: String },
}

/// What the driver does after a generation outcome.
#[derive(Debug, Clone, Copy, PartialEq, Eq, Structural)]
pub enum FindingStep {
    /// Open a pull request for the contribution just generated, then report
    /// how it went with [`RepoRun::on_pr`].
    OpenPr,
    /// Go on with the next finding.
    Next,
}

/// The processing of one repository, finding by finding.
pub struct RepoRun {
    result: PipelineResult,
    dry_run: bool,
    limit: usize,
    attempted: usize,
    pending_pr: bool,
}

impl RepoRun {
    /// The counts so far.
    pub closed spec fn result(&self) -> PipelineResult {
        self.result
    }

    /// Whether this is a dry run.
    pub closed spec fn is_dry_run(&self) -> bool {
        self.dry_run
    }

    /// How many findings are attempted in all.
    pub closed spec fn limit(&self) -> nat {
        self.limit as nat
    }

    /// How many findings were attempted so far.
    pub closed spec fn attempted(&self) -> nat {
        self.attempted as nat
    }

    /// Whether a pull request was asked for and its outcome is not reported yet.
    pub closed spec fn awaits_pr(&self) -> bool {
        self.pending_pr
    }

    /// What every step keeps: counts bounded by the findings attempted, no
    /// pull request in a dry run, at most one pull request awaited.
    pub closed spec fn wf(&self) -> bool {
        &&& self.attempted <= self.limit <= self.result.findings_total
        &&& self.result.contributions_generated <= self.attempted
        &&& self.result.prs_created + (if self.pending_pr {
            1int
        } else {
            0int
        }) <= self.result.contributions_generated
        &&& self.result.repos_analyzed == 0
        &&& self.dry_run ==> self.result.prs_created == 0 && !self.pending_pr
    }

    /// Starts processing a repository whose analysis reported `findings_total`
    /// findings, `filtered` of which passed the filters; at most `max_prs` of
    /// those are attempted.
    pub fn start(findings_total: usize, filtered: usize, max_prs: usize, dry_run: bool) -> (r:
        Self)
        requires
            filtered <= findings_total,
        ensures
            r.wf(),
            r.result().repos_analyzed == 0,
            r.result().findings_total == findings_total,
            r.result().contributions_generated == 0,
            r.result().prs_created == 0,
            r.result().errors@.len() == 0,
            r.is_dry_run() == dry_run,
            r.attempted() == 0,
            r.limit() == if filtered <= max_prs {
                filtered
            } else {
                max_prs
            },
            !r.awaits_pr(),
    {
        let mut result = PipelineResult::default();
        result.findings_total = findings_total;
        let limit = if filtered <= max_prs {
            filtered
        } else {
            max_prs
        };
        RepoRun { result, dry_run, limit, attempted: 0, pending_pr: false }
    }

    /// How many findings are attempted in all.
    pub fn findings_to_attempt(&self) -> (r: usize)
        ensures
            r == self.limit(),
    {
        self.limit
    }

    /// Takes the outcome of generating a contribution for the next finding.
    /// A contribution that passed the quality check is counted, and outside a
    /// dry run a pull request is asked for; a failure is recorded as
    /// `Generation error: {error}`.
    pub fn on_generation(&mut self, outcome: GenerationOutcome) -> (r: FindingStep)
        requires
            old(self).wf(),
            !old(self).awaits_pr(),
            old(self).attempted() < old(self).limit(),
        ensures
            final(self).wf(),
            final(self).attempted() == old(self).attempted() + 1,
            final(self).limit() == old(self).limit(),
            final(self).is_dry_run() == old(self).is_dry_run(),
            final(self).result().findings_total == old(self).result().findings_total,
            final(self).result().prs_created == old(self).result().prs_created,
            final(self).result().contributions_generated == old(self).result().contributions_generated
                + (if outcome matches GenerationOutcome::Generated { passed_quality: true } {
                1int
            } else {
                0int
            }),
            r == (if outcome matches GenerationOutcome::Generated { passed_quality: true }
                && !old(self).is_dry_run() {
                FindingStep::OpenPr
            } else {
                FindingStep::Next
            }),
            final(self).awaits_pr() == (r == FindingStep::OpenPr),
            texts(final(self).result().errors@) == match outcome {
                GenerationOutcome::Failed { error } => texts(old(self).result().errors@).push(
                    "Generation error: "@ + error@,
                ),
                _ => texts(old(self).result().errors@),
            },
    {
        self.attempted = self.attempted + 1;
        match outcome {
            GenerationOutcome::Generated { passed_quality } => {
                if !passed_quality {
                    return FindingStep::Next;
                }
                self.result.contributions_generated = self.result.contributions_generated + 1;
                if self.dry_run {
                    FindingStep::Next
                } else {
                    self.pending_pr = true;
                    FindingStep::OpenPr
                }
            },
            GenerationOutcome::NothingGenerated => FindingStep::Next,
            GenerationOutcome::Failed { error } => {
                let mut msg = String::from_str("Generation error: ");
                msg.append(error.as_str());
                let ghost before = texts(self.result.errors@);
                self.result.errors.push(msg);
                assert(texts(self.result.errors@) =~= before.push("Generation error: "@ + error@));
                FindingStep::Next
            },
        }
    }

    /// Takes the outcome of the pull request asked for: counted when it was
    /// opened, else recorded as `PR creation failed: {error}`.
    pub fn on_pr(&mut self, outcome: Result<(), String>)
        requires
            old(self).wf(),
            old(self).awaits_pr(),
        ensures
            final(self).wf(),
            !final(self).awaits_pr(),
            final(self).attempted() == old(self).attempted(),
            final(self).limit() == old(self).limit(),
            final(self).is_dry_run() == old(self).is_dry_run(),
            final(self).result().findings_total == old(self).result().findings_total,
            final(self).result().contributions_generated == old(
                self,
            ).result().contributions_generated,
            final(self).result().prs_created == old(self).result().prs_created + (
            if outcome is Ok {
                1int
            } else {
                0int
            }),
            texts(final(self).result().errors@) == match outcome {
                Err(error) => texts(old(self).result().errors@).push(
                    "PR creation failed: "@ + error@,
                ),
                Ok(_) => texts(old(self).result().errors@),
            },
    {
        self.pending_pr = false;
        match outcome {
            Ok(_) => {
                self.result.prs_created = self.result.prs_created + 1;
            },
            Err(error) => {
                let mut msg = String::from_str("PR creation failed: ");
                msg.append(error.as_str());
                let ghost before = texts(self.result.errors@);
                self.result.errors.push(msg);
                assert(texts(self.result.errors@) =~= before.push("PR creation failed: "@ + error@));
            },
        }
    }

    /// The counts of the processed repository.
    pub fn finish(self) -> (r: PipelineResult)
        requires
            self.wf(),
            !self.awaits_pr(),
        ensures
            r == self.result(),
            r.consistent(),
            r.repos_analyzed == 0,
            r.prs_created <= self.limit(),
            self.is_dry_run() ==> r.prs_created == 0,
    {
        self.result
    }
}

/// Whether two titles are similar: after lower-casing, both have keywords and
/// more than half of the smaller keyword set is shared.
pub open spec fn titles_similar_spec(a: Seq<char>, b: Seq<char>) -> bool {
    keywords_similar(keyword_set(str_lowercase(a)), keyword_set(str_lowercase(b)))
}

/// Whether two titles are similar: after lower-casing, both have keywords and
/// more than half of the smaller keyword set is shared (keyword overlap
/// above 50%).
pub fn titles_similar(title_a: &str, title_b: &str) -> (r: bool)
    ensures
        r == titles_similar_spec(title_a@, title_b@),
{
    let a = to_lowercase(title_a);
    let b = to_lowercase(title_b);
    similar_lowercased(a.as_str(), b.as_str())
}

/// Title similarity does not depend on the order of the titles.
pub proof fn lemma_titles_similar_symmetric(a: Seq<char>, b: Seq<char>)
    ensures
        titles_similar_spec(a, b) == titles_similar_spec(b, a),
{
    lemma_similarity_symmetric(keyword_set(str_lowercase(a)), keyword_set(str_lowercase(b)));
}

/// A title is similar to itself exactly when it has a keyword.
pub proof fn lemma_title_similar_to_itself(a: Seq<char>)
    ensures
        titles_similar_spec(a, a) == (keyword_set(str_lowercase(a)).len() > 0),
{
    lemma_similarity_reflexive(keyword_set(str_lowercase(a)));
}

/// A title whose keywords (after lower-casing) are all keywords of another
/// title, and which has at least one, is similar to it, in either order,
/// however many more keywords the other title has.
pub proof fn lemma_contained_titles_similar(a: Seq<char>, b: Seq<char>)
    requires
        exists|w: Seq<char>| keyword_set(str_lowercase(a)).contains(w),
        keyword_set(str_lowercase(a)).subset_of(keyword_set(str_lowercase(b))),
    ensures
        titles_similar_spec(a, b),
        titles_similar_spec(b, a),
{
    lemma_contained_title_keywords_similar(str_lowercase(a), str_lowercase(b));
}

} // verus!
