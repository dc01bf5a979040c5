//! Run configuration: which agent command handles a unit, and the pipeline's
//! switches.

use vstd::prelude::*;
use vstd::string::*;
use crate::sexp::{HIGH_GRADE, skill_of_word, Skill};

verus! {

/// Most units worked at once by default.
pub const MAX_ANVILS: usize = 3;

/// Most rounds of answering its own questions an agent gets.
pub const MAX_ITERATE: usize = 3;

/// Agent commands: the base one, with plan mode, with web tools, and with
/// both.
pub struct SmithConfig {
    pub base: String,
    pub plan: String,
    pub web: String,
    pub web_plan: String,
}

pub open spec fn plan_suffix() -> Seq<char> {
    " --permission-mode plan"@
}

pub open spec fn web_suffix() -> Seq<char> {
    " --allowedTools 'Bash Edit Read Write Playwright'"@
}

impl SmithConfig {
    /// The four commands derived from a base command.
    pub fn from_base(base: &str) -> (r: SmithConfig)
        ensures
            r.base@ == base@,
            r.plan@ == base@ + plan_suffix(),
            r.web@ == base@ + web_suffix(),
            r.web_plan@ == base@ + web_suffix() + plan_suffix(),
    {
        let mut plan = base.to_string();
        plan.append(" --permission-mode plan");
        let mut web = base.to_string();
        web.append(" --allowedTools 'Bash Edit Read Write Playwright'");
        let mut web_plan = web.clone();
        web_plan.append(" --permission-mode plan");
        SmithConfig { base: base.to_string(), plan, web, web_plan }
    }

    pub open spec fn select_spec(&self, skill: Seq<char>, grade: u8) -> Seq<char> {
        if skill_of_word(skill) == Skill::Web {
            if grade >= HIGH_GRADE {
                self.web_plan@
            } else {
                self.web@
            }
        } else if grade >= HIGH_GRADE {
            self.plan@
        } else {
            self.base@
        }
    }

    /// The command for a unit: web tools for web work, plan mode from the
    /// complex grade on.
    pub fn select(&self, skill: &str, grade: u8) -> (r: &str)
        ensures
            r@ == self.select_spec(skill@, grade),
    {
        if Skill::parse(skill) == Skill::Web {
            if grade >= HIGH_GRADE {
                self.web_plan.as_str()
            } else {
                self.web.as_str()
            }
        } else {
            if grade >= HIGH_GRADE {
                self.plan.as_str()
            } else {
                self.base.as_str()
            }
        }
    }
}

/// A path relative to the project directory.
pub fn project_path(filename: &str) -> (r: String)
    ensures
        r@ == filename@,
{
    filename.to_string()
}

/// The pipeline's switches.
#[derive(Debug, Clone, Default)]
pub struct PipelineConfig {
    /// Work each parallel unit in its own git working tree and branch.
    pub worktree: bool,
    /// Most units worked at once.
    pub max_anvils: usize,
    pub skip_review: bool,
    /// Keep rejected branches.
    pub keep_branches: bool,
    /// Automated checks only, no agent review.
    pub ci_only: bool,
    /// Review branches whose checks failed, too.
    pub review_all: bool,
    /// Rounds of recovery after the first forge run.
    pub max_retry: usize,
}

impl PipelineConfig {
    pub fn new(
        worktree: bool,
        max_anvils: usize,
        skip_review: bool,
        keep_branches: bool,
        ci_only: bool,
        review_all: bool,
        max_retry: usize,
    ) -> (r: PipelineConfig)
        ensures
            r.worktree == worktree,
            r.max_anvils == max_anvils,
            r.skip_review == skip_review,
            r.keep_branches == keep_branches,
            r.ci_only == ci_only,
            r.review_all == review_all,
            r.max_retry == max_retry,
    {
        PipelineConfig {
            worktree,
            max_anvils,
            skip_review,
            keep_branches,
            ci_only,
            review_all,
            max_retry,
        }
    }

    /// Branches are reviewed when units run in isolation and review is not
    /// switched off.
    pub fn should_review(&self) -> (r: bool)
        ensures
            r == (self.worktree && !self.skip_review),
    {
        self.worktree && !self.skip_review
    }
}

} // verus!
