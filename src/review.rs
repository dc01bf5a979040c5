//! The review gate: automated checks and an agent's verdict decide whether
//! a unit's branch is merged.

use vstd::prelude::*;
use vstd::string::*;
use crate::config::PipelineConfig;
use crate::error::SlagError;
use crate::text::{chars_of, contains, has_infix, has_prefix, lines, split_lines, starts_with, views};
use crate::cli::joined;

verus! {

/// Outcome of the automated checks on a branch: format, lint, tests.
#[derive(Debug, Clone)]
pub struct CiResult {
    pub fmt_passed: bool,
    pub fmt_output: String,
    pub clippy_passed: bool,
    pub clippy_output: String,
    pub test_passed: bool,
    pub test_output: String,
}

pub open spec fn mark(b: bool) -> Seq<char> {
    if b {
        "✓"@
    } else {
        "✗"@
    }
}

impl CiResult {
    /// Whether every check passed.
    pub fn passed(&self) -> (r: bool)
        ensures
            r == (self.fmt_passed && self.clippy_passed && self.test_passed),
    {
        self.fmt_passed && self.clippy_passed && self.test_passed
    }

    /// One line: each check with a tick or a cross.
    pub fn summary(&self) -> (r: String)
        ensures
            r@ == "fmt:"@ + mark(self.fmt_passed) + " clippy:"@ + mark(self.clippy_passed)
                + " test:"@ + mark(self.test_passed),
    {
        let mut s = String::new();
        s.append("fmt:");
        s.append(
            if self.fmt_passed {
                "✓"
            } else {
                "✗"
            },
        );
        s.append(" clippy:");
        s.append(
            if self.clippy_passed {
                "✓"
            } else {
                "✗"
            },
        );
        s.append(" test:");
        s.append(
            if self.test_passed {
                "✓"
            } else {
                "✗"
            },
        );
        s
    }
}

/// The reviewing agent's verdict.
#[derive(Debug, Clone)]
pub struct ReviewResult {
    pub approved: bool,
    pub comments: String,
}

/// What becomes of a branch once its checks have run.
#[derive(Debug, Clone, Copy, PartialEq, Eq, Structural)]
pub enum GateDecision {
    /// Discard it without merging.
    Reject,
    /// Merge it without an agent review.
    Merge,
    /// Ask the agent to review it.
    Review,
}

/// Failing checks reject a branch unless review is asked for regardless;
/// with checks only, passing checks merge it; otherwise the agent reviews.
pub open spec fn gate(review_all: bool, ci_only: bool, passed: bool) -> GateDecision {
    if !passed && !review_all {
        GateDecision::Reject
    } else if ci_only {
        if passed {
            GateDecision::Merge
        } else {
            GateDecision::Reject
        }
    } else {
        GateDecision::Review
    }
}

pub fn ci_gate(config: &PipelineConfig, ci: &CiResult) -> (r: GateDecision)
    ensures
        r == gate(config.review_all, config.ci_only, ci.fmt_passed && ci.clippy_passed && ci.test_passed),
{
    let passed = ci.passed();
    if !passed && !config.review_all {
        GateDecision::Reject
    } else if config.ci_only {
        if passed {
            GateDecision::Merge
        } else {
            GateDecision::Reject
        }
    } else {
        GateDecision::Review
    }
}

/// An error when branches were turned down and none was merged.
pub fn review_outcome(approved: usize, rejected: usize) -> (r: Result<(), SlagError>)
    ensures
        (rejected > 0 && approved == 0) ==> (r matches Err(SlagError::ReviewFailed(n)) && n
            == rejected),
        !(rejected > 0 && approved == 0) ==> r is Ok,
{
    if rejected > 0 && approved == 0 {
        Err(SlagError::ReviewFailed(rejected))
    } else {
        Ok(())
    }
}

/// The lines after the first `COMMENTS:` (or `Comments:`) line, at most ten.
pub open spec fn comment_lines(ls: Seq<Seq<char>>) -> Seq<Seq<char>>
    decreases ls.len(),
{
    if ls.len() == 0 {
        seq![]
    } else if starts_with(ls[0], "COMMENTS:"@) || starts_with(ls[0], "Comments:"@) {
        let rest = ls.drop_first();
        if rest.len() > 10 {
            rest.subrange(0, 10)
        } else {
            rest
        }
    } else {
        comment_lines(ls.drop_first())
    }
}

pub open spec fn first_lines(ls: Seq<Seq<char>>, n: int) -> Seq<Seq<char>> {
    if ls.len() > n {
        ls.subrange(0, n)
    } else {
        ls
    }
}

/// The comments of a review: the comment lines joined by spaces, or, when
/// they come to nothing, the first three lines.
pub open spec fn review_comments(response: Seq<char>) -> Seq<char> {
    let c = joined(comment_lines(lines(response)));
    if c.len() == 0 {
        joined(first_lines(lines(response), 3))
    } else {
        c
    }
}

/// A rejection wins; otherwise approval, stated or implied by passing checks.
pub open spec fn review_approves(response: Seq<char>, upper: Seq<char>, ci_passed: bool) -> bool {
    let approved = contains(response, "STATUS: APPROVED"@) || contains(upper, "APPROVED"@);
    let rejected = contains(response, "STATUS: REJECTED"@) || contains(upper, "REJECTED"@);
    !rejected && (approved || ci_passed)
}

/// The Unicode upper case of a text.
pub uninterp spec fn upper_of(s: Seq<char>) -> Seq<char>;

/// Relies on `str::to_uppercase`: Unicode upper case, which depends on the
/// characters alone.
#[verifier::external_body]
fn uppercase(s: &str) -> (r: String)
    ensures
        r@ == upper_of(s@),
{
    s.to_uppercase()
}

fn join_lines(ls: &Vec<Vec<char>>, lo: usize, hi: usize) -> (r: String)
    requires
        lo <= hi <= ls.len(),
    ensures
        r@ == joined(views(ls@).subrange(lo as int, hi as int)),
{
    let ghost lv = views(ls@);
    let mut s = String::new();
    let mut i = lo;
    while i < hi
        invariant
            lo <= i <= hi <= ls.len(),
            lv == views(ls@),
            s@ == joined(lv.subrange(lo as int, i as int)),
        decreases hi - i,
    {
        let ghost nxt = lv.subrange(lo as int, i + 1);
        assert(nxt.drop_last() =~= lv.subrange(lo as int, i as int));
        assert(nxt.last() == ls@[i as int]@);
        if i > lo {
            s.append(" ");
        } else {
            assert(nxt =~= seq![ls@[i as int]@]);
        }
        crate::text::push_chars(&mut s, &ls[i]);
        i += 1;
    }
    s
}

/// Reads an agent's review, given the response in upper case.
pub fn judge_review(response: &str, upper: &str, ci_passed: bool) -> (r: ReviewResult)
    ensures
        r.approved == review_approves(response@, upper@, ci_passed),
        r.comments@ == review_comments(response@),
{
    let v = chars_of(response);
    let u = chars_of(upper);
    let approved = has_infix(&v, &chars_of("STATUS: APPROVED")) || has_infix(&u, &chars_of("APPROVED"));
    let rejected = has_infix(&v, &chars_of("STATUS: REJECTED")) || has_infix(&u, &chars_of("REJECTED"));
    let ls = split_lines(&v);
    let ghost lv = views(ls@);
    let head1 = chars_of("COMMENTS:");
    let head2 = chars_of("Comments:");
    let mut i: usize = 0;
    let mut comments = String::new();
    let mut found = false;
    assert(lv.subrange(0, lv.len() as int) =~= lv);
    while i < ls.len()
        invariant
            0 <= i <= ls.len(),
            lv == views(ls@),
            lv == lines(response@),
            head1@ == "COMMENTS:"@,
            head2@ == "Comments:"@,
            !found ==> comment_lines(lv) == comment_lines(lv.subrange(i as int, lv.len() as int)),
            !found ==> comments@ == Seq::<char>::empty(),
            found ==> comments@ == joined(comment_lines(lv)),
        decreases ls.len() - i,
    {
        let ghost rest = lv.subrange(i as int, lv.len() as int);
        assert(rest[0] == ls@[i as int]@);
        assert(rest.drop_first() =~= lv.subrange(i + 1, lv.len() as int));
        if !found && (has_prefix(&ls[i], &head1) || has_prefix(&ls[i], &head2)) {
            let hi = if ls.len() - (i + 1) > 10 {
                i + 11
            } else {
                ls.len()
            };
            comments = join_lines(&ls, i + 1, hi);
            let ghost tail = lv.subrange(i + 1, lv.len() as int);
            assert(tail.len() > 10 ==> tail.subrange(0, 10) =~= lv.subrange(i + 1, hi as int));
            assert(tail.len() <= 10 ==> tail =~= lv.subrange(i + 1, hi as int));
            found = true;
        }
        i += 1;
    }
    assert(!found ==> lv.subrange(i as int, lv.len() as int) =~= Seq::<Seq<char>>::empty());
    assert(comments@ == joined(comment_lines(lv)));
    let comments = if comments.as_str().unicode_len() == 0 {
        let hi = if ls.len() > 3 {
            3
        } else {
            ls.len()
        };
        let first = join_lines(&ls, 0, hi);
        assert(ls.len() <= 3 ==> lv.subrange(0, hi as int) =~= lv);
        first
    } else {
        comments
    };
    ReviewResult { approved: !rejected && (approved || ci_passed), comments }
}

/// Reads an agent's review of a branch.
pub fn parse_review(response: &str, ci_passed: bool) -> (r: ReviewResult)
    ensures
        r.approved == review_approves(response@, upper_of(response@), ci_passed),
        r.comments@ == review_comments(response@),
{
    let upper = uppercase(response);
    judge_review(response, upper.as_str(), ci_passed)
}

} // verus!
