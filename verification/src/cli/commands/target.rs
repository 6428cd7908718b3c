//! `target`: run the pipeline on one given repository.
use vstd::prelude::*;

verus! {

/// How the `target` command runs.
#[derive(Debug, Clone, Copy, PartialEq, Eq, Structural)]
pub enum TargetMode {
    /// Self mode: fixes go to a private repository of the user.
    SelfPush,
    /// Nothing is submitted.
    DryRun,
    /// Pull requests are opened.
    Live,
}

/// The mode of a `target` run: self mode wins over a dry run.
pub fn target_mode(self_mode: bool, dry_run: bool) -> (r: TargetMode)
    ensures
        r == if self_mode {
            TargetMode::SelfPush
        } else if dry_run {
            TargetMode::DryRun
        } else {
            TargetMode::Live
        },
{
    if self_mode {
        TargetMode::SelfPush
    } else if dry_run {
        TargetMode::DryRun
    } else {
        TargetMode::Live
    }
}

impl TargetMode {
    /// The label printed after the target URL.
    pub open spec fn label_text(self) -> Seq<char> {
        match self {
            TargetMode::SelfPush => "(SELF — push to private repo)"@,
            TargetMode::DryRun => "(DRY RUN)"@,
            TargetMode::Live => "(LIVE)"@,
        }
    }

    /// The label printed after the target URL.
    pub fn label(&self) -> (r: String)
        ensures
            r@ == self.label_text(),
    {
        match self {
            TargetMode::SelfPush => String::from_str("(SELF — push to private repo)"),
            TargetMode::DryRun => String::from_str("(DRY RUN)"),
            TargetMode::Live => String::from_str("(LIVE)"),
        }
    }
}

} // verus!
