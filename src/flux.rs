//! Requests sent to the agent: each is its template with the inputs put in.

use vstd::prelude::*;
use vstd::string::*;
use crate::review::CiResult;
use crate::text::{chars_of, push_chars, slice_of};
use crate::sexp::{Ingot, IngotView, Skill, HIGH_GRADE, skill_word};
use crate::writer::{dec_text, ingot_text, push_decimal, write_ingot};

verus! {

pub const SURVEY_HEAD: &'static str = "ROLE: Master Surveyor. Analyze this commission as domain expert.\n\nCOMMISSION:\n";

pub const SURVEY_TAIL: &'static str = "\n\nCreate a thorough BLUEPRINT:\n\n## 1. OVERVIEW\nWhat are we building? 2-3 sentence summary.\n\n## 2. COMPONENTS\nList each major piece:\n- Name\n- Purpose\n- Complexity (1-5)\n- Dependencies\n- Skill: web|api|cli|default\n\n## 3. ARCHITECTURE\n```\ndir/\n├── file structure\n└── layout\n```\nKey interfaces and data flow.\n\n## 4. DEPENDENCY GRAPH\n```\n[A] ──▶ [B] ──▶ [C]\n         │\n         └────▶ [D]\n```\n\n## 5. RISKS\n- High complexity areas\n- Integration points\n- External dependencies\n\n## 6. FORGING SEQUENCE\n1. Foundation (parallel, :independent t)\n2. Core logic\n3. Integration\n4. Polish/deploy\n\n## 7. ACCEPTANCE CRITERIA\n- Specific tests\n- Features to verify\n- Quality checks\n\nRULES:\n- You are the EXPERT. Make ALL decisions yourself.\n- NO QUESTIONS. If uncertain, choose the best option.\n- NO PREAMBLE. Output ONLY the blueprint markdown.";

pub const FOUNDER_HEAD: &'static str = "ROLE: Master Founder. Cast ingots from blueprint.\n\nCOMMISSION:\n";

pub const FOUNDER_MID: &'static str = "\n\nBLUEPRINT:\n";

pub const FOUNDER_TAIL: &'static str = "\n\nOUTPUT: S-expressions only. One per line. No prose.\n\nTEMPLATE:\n(unit :id \"i1\" :status pending :independent t :grade 1 :skill default :attempt 0 :attempt_limit 5 :proof \"SHELL\" :description \"Task\")\n\nFIELDS:\n- :id = unique (i1, i2, ...)\n- :status = pending (always)\n- :independent = t (parallel ok, no deps) | nil (sequential, has deps)\n- :grade = 1-5 complexity (3+ gets plan mode)\n- :skill = web|api|cli|default (selects tools/plugins)\n- :attempt = 0\n- :attempt_limit = attempts (5 simple, 8+ complex)\n- :escalation = 0 (re-smelt count; system manages this)\n- :proof = shell verification command\n\nPROOF COMMANDS:\n- test -f FILE / test -d DIR\n- grep -q PATTERN FILE\n- node --check FILE\n- npm test / npx playwright test\n- curl -s URL | grep -q PATTERN\n\nRULES:\n- Follow blueprint dependency graph\n- :independent t for independent tasks (can parallel)\n- :independent nil for dependent tasks (sequential)\n- Prefer grade 1-2, split complex work\n- Match :skill to task type\n- Every :proof must be executable shell\n\nOUTPUT ONLY S-EXPRESSIONS:";

pub const REVIEW_HEAD: &'static str = "=== MASTER CODE REVIEW ===\nYou are the master code examiner for the slag forge system.\nExamine this branch before it can be merged to main.\n\nINGOT: ";

pub const REVIEW_BRANCH: &'static str = "\nBRANCH: ";

pub const REVIEW_FMT: &'static str = "\n\n=== CI RESULTS ===\n- Format check (cargo fmt --check): ";

pub const REVIEW_CLIPPY: &'static str = "\n- Clippy (cargo clippy -- -D warnings): ";

pub const REVIEW_TEST: &'static str = "\n- Tests (cargo test --all): ";

pub const REVIEW_GAP: &'static str = "\n\n";

pub const REVIEW_DIFF: &'static str = "\n=== DIFF ===\n";

pub const REVIEW_TAIL: &'static str = "\n\n=== YOUR TASK ===\nReview the code changes and evaluate:\n1. Code correctness - does the implementation match the intent?\n2. Code quality - is it clean, idiomatic, maintainable?\n3. Integration safety - will this merge cleanly with main?\n4. Potential issues - bugs, edge cases, security concerns?\n\nOUTPUT FORMAT (exactly this):\nSTATUS: APPROVED|REJECTED\nCOMMENTS:\n<your detailed review comments, 1-3 sentences>\n\nRULES:\n- If CI passed and code looks reasonable, APPROVE\n- Only REJECT for serious issues\n- Be concise in comments\n- Focus on what matters\n";

pub const REGENERATE_HEAD: &'static str = "ROLE: Master Founder. These ingots cracked and must be cast anew.\n\nCRACKED INGOTS:\n";

pub const REGENERATE_TAIL: &'static str = "\n\nWrite replacement ingots that reach the same goals by a sounder route: smaller steps, correct proofs, dependencies made explicit (:independent nil where a task needs another's output).\n\nOUTPUT: S-expressions only. One per line. No prose.\n\nTEMPLATE:\n(unit :id \"r1\" :status pending :independent t :grade 1 :skill default :attempt 0 :attempt_limit 5 :proof \"SHELL\" :description \"Task\")\n\nOUTPUT ONLY S-EXPRESSIONS:";

pub const WORKTREE_HEAD: &'static str = "WORKTREE: You are working in an isolated git worktree at: ";

pub const WORKTREE_MID: &'static str = "\nAll file operations should be relative to this directory.\n\n";

pub const FLUX_HEAD: &'static str = "=== FORGE ORDER ===\n[";

pub const FLUX_GRADE: &'static str = "\nGrade: ";

pub const FLUX_COMPLEX: &'static str = " ◉ COMPLEX";

pub const FLUX_SKILL: &'static str = "\nSkill: ";

pub const FLUX_PLAYWRIGHT: &'static str = " (Playwright available)";

pub const FLUX_HEAT: &'static str = "\nHeat: ";

pub const FLUX_PROOF: &'static str = "\nProof: ";

pub const FLUX_BLUEPRINT: &'static str = "\n\n=== BLUEPRINT ===\n";

pub const FLUX_ALLOY: &'static str = "\n\n=== ALLOY RECIPES ===\n";

pub const FLUX_CRUCIBLE: &'static str = "\n\n=== CRUCIBLE STATE ===\n";

pub const FLUX_LEDGER: &'static str = "\n\n=== RECENT LEDGER ===\n";

pub const FLUX_DIFF: &'static str = "\n\n=== GIT DIFF ===\n";

pub const FLUX_CRACKED: &'static str = "!!! CRACKED - PREVIOUS ATTEMPT FAILED !!!\n";

pub const FLUX_FIX: &'static str = "\n!!! ANALYZE AND FIX !!!\n";

pub const FLUX_INSTRUCTIONS: &'static str = "=== INSTRUCTIONS ===\n1. Forge this ingot completely\n2. Create/modify all necessary files\n3. Add useful patterns to AGENTS.md\n4. End with exactly: COMMAND: <shell command to verify>\n\n";

pub const FLUX_COMPLEX_NOTE: &'static str = "◉ COMPLEX - think through edge cases\n";

pub const FLUX_WEB_NOTE: &'static str = "◉ WEB SKILL - Playwright available for browser testing\n";

pub const FLUX_RULES: &'static str = "\nRULES:\n- NO QUESTIONS. You are the expert.\n- NO PROSE. Just code and COMMAND.\n- The COMMAND must pass for the ingot to be forged.\n";

pub const RESMELT_HEAD: &'static str = "=== RE-SMELT ANALYSIS ===\nAn ingot cracked after exhausting all retry heats. Analyze the failure and fix it.\n\nCRACKED INGOT:\n";

pub const RESMELT_BLUEPRINT: &'static str = "\n\nBLUEPRINT:\n";

pub const RESMELT_CRUCIBLE: &'static str = "\n\nCRUCIBLE STATE:\n";

pub const RESMELT_LOGS: &'static str = "\n\nFAILURE LOGS:\n";

pub const RESMELT_GIT: &'static str = "\n\nGIT STATE:\n";

pub const RESMELT_TASK: &'static str = "\n\n=== YOUR TASK ===\nAnalyze WHY this ingot failed. Then choose ONE action:\n\nOPTION A - REWRITE: If the work or proof was wrong, output a corrected ingot.\nOPTION B - SPLIT: If the task is too big, split into 2-4 smaller sub-ingots.\nOPTION C - IMPOSSIBLE: If this genuinely cannot be done.\n\nOUTPUT FORMAT (exactly one of):\n\nREWRITE:\n(unit :id \"";

pub const RESMELT_GRADE: &'static str = "\" :status pending :independent t :grade ";

pub const RESMELT_SKILL: &'static str = " :skill ";

pub const RESMELT_SPLIT_A: &'static str = " :attempt 0 :attempt_limit 5 :escalation 1 :proof \"CORRECTED_PROOF\" :description \"Corrected task description\")\n\nSPLIT:\n(unit :id \"";

pub const RESMELT_SPLIT_B: &'static str = "a\" :status pending :independent t :grade G :skill S :attempt 0 :attempt_limit 5 :escalation 1 :proof \"PROOF\" :description \"Sub-task 1\")\n(unit :id \"";

pub const RESMELT_TAIL: &'static str = "b\" :status pending :independent t :grade G :skill S :attempt 0 :attempt_limit 5 :escalation 1 :proof \"PROOF\" :description \"Sub-task 2\")\n\nIMPOSSIBLE:\nIMPOSSIBLE: reason\n\nRULES:\n- ALL rewritten/split ingots MUST have :escalation 1\n- Fix the ROOT CAUSE, do not just retry the same thing\n- If proof command was wrong, fix the proof\n- If work was too vague, make it specific\n- If task was too large, split into focused sub-tasks\n- Output ONLY the action keyword and ingot lines, nothing else\n";

/// What a request shows of the project besides the unit: blueprint, agent
/// notes, ledger file, recent changelog and recent changes.
pub struct FluxContext {
    pub blueprint: String,
    pub alloy: String,
    pub crucible: String,
    pub ledger: String,
    pub git_diff: String,
}

pub open spec fn when(b: bool, s: Seq<char>) -> Seq<char> {
    if b {
        s
    } else {
        seq![]
    }
}

pub open spec fn flux_tail(u: IngotView, slag: Option<Seq<char>>) -> Seq<char> {
    match slag {
        Some(m) => FLUX_CRACKED@ + m + FLUX_FIX@,
        None => FLUX_INSTRUCTIONS@ + when(u.grade >= HIGH_GRADE, FLUX_COMPLEX_NOTE@) + when(
            u.skill == Skill::Web,
            FLUX_WEB_NOTE@,
        ) + FLUX_RULES@,
    }
}

/// The request for one attempt at a unit, with the last failure if any.
pub open spec fn flux_text(u: IngotView, slag: Option<Seq<char>>, c: FluxContext) -> Seq<char> {
    FLUX_HEAD@ + u.id + "] "@ + u.work + FLUX_GRADE@ + dec_text(u.grade as nat) + when(
        u.grade >= HIGH_GRADE,
        FLUX_COMPLEX@,
    ) + FLUX_SKILL@ + skill_word(u.skill) + when(u.skill == Skill::Web, FLUX_PLAYWRIGHT@)
        + FLUX_HEAT@ + dec_text(u.heat as nat) + "/"@ + dec_text(u.max as nat) + FLUX_PROOF@
        + u.proof + FLUX_BLUEPRINT@ + c.blueprint@ + FLUX_ALLOY@ + c.alloy@ + FLUX_CRUCIBLE@
        + c.crucible@ + FLUX_LEDGER@ + c.ledger@ + FLUX_DIFF@ + c.git_diff@ + "\n\n"@ + flux_tail(
        u,
        slag,
    )
}

fn push_when(s: &mut String, b: bool, t: &str)
    ensures
        final(s)@ == old(s)@ + when(b, t@),
{
    if b {
        s.append(t);
    } else {
        assert(old(s)@ + seq![] =~= old(s)@);
    }
}

/// Builds the request for one attempt at a unit.
pub fn prepare_flux(ingot: &Ingot, slag: Option<&str>, ctx: &FluxContext) -> (r: String)
    ensures
        r@ == flux_text(ingot@, match slag { Some(m) => Some(m@), None => None }, *ctx),
{
    let complex = ingot.grade >= HIGH_GRADE;
    let web = ingot.skill == Skill::Web;
    let mut s = String::new();
    s.append(FLUX_HEAD);
    s.append(ingot.id.as_str());
    s.append("] ");
    s.append(ingot.work.as_str());
    s.append(FLUX_GRADE);
    push_decimal(&mut s, ingot.grade as u64);
    push_when(&mut s, complex, FLUX_COMPLEX);
    s.append(FLUX_SKILL);
    s.append(ingot.skill.as_str());
    push_when(&mut s, web, FLUX_PLAYWRIGHT);
    s.append(FLUX_HEAT);
    push_decimal(&mut s, ingot.heat as u64);
    s.append("/");
    push_decimal(&mut s, ingot.max as u64);
    s.append(FLUX_PROOF);
    s.append(ingot.proof.as_str());
    s.append(FLUX_BLUEPRINT);
    s.append(ctx.blueprint.as_str());
    s.append(FLUX_ALLOY);
    s.append(ctx.alloy.as_str());
    s.append(FLUX_CRUCIBLE);
    s.append(ctx.crucible.as_str());
    s.append(FLUX_LEDGER);
    s.append(ctx.ledger.as_str());
    s.append(FLUX_DIFF);
    s.append(ctx.git_diff.as_str());
    s.append("\n\n");
    let ghost head = s@;
    match slag {
        Some(m) => {
            s.append(FLUX_CRACKED);
            s.append(m);
            s.append(FLUX_FIX);
        },
        None => {
            s.append(FLUX_INSTRUCTIONS);
            push_when(&mut s, complex, FLUX_COMPLEX_NOTE);
            push_when(&mut s, web, FLUX_WEB_NOTE);
            s.append(FLUX_RULES);
        },
    }
    assert(s@ =~= head + flux_tail(ingot@, match slag { Some(m) => Some(m@), None => None }));
    s
}

pub open spec fn resmelt_text(u: IngotView, logs: Seq<char>, c: FluxContext) -> Seq<char> {
    RESMELT_HEAD@ + ingot_text(u) + RESMELT_BLUEPRINT@ + c.blueprint@ + RESMELT_CRUCIBLE@
        + c.crucible@ + RESMELT_LOGS@ + logs + RESMELT_GIT@ + c.git_diff@ + RESMELT_TASK@ + u.id
        + RESMELT_GRADE@ + dec_text(u.grade as nat) + RESMELT_SKILL@ + skill_word(u.skill)
        + RESMELT_SPLIT_A@ + u.id + RESMELT_SPLIT_B@ + u.id + RESMELT_TAIL@
}

/// Builds the re-smelt request for a unit that ran out of attempts; the
/// context's change summary stands for the repository state.
pub fn prepare_resmelt_flux(ingot: &Ingot, failure_logs: &str, ctx: &FluxContext) -> (r: String)
    ensures
        r@ == resmelt_text(ingot@, failure_logs@, *ctx),
{
    let mut s = String::new();
    s.append(RESMELT_HEAD);
    let record = write_ingot(ingot);
    s.append(record.as_str());
    s.append(RESMELT_BLUEPRINT);
    s.append(ctx.blueprint.as_str());
    s.append(RESMELT_CRUCIBLE);
    s.append(ctx.crucible.as_str());
    s.append(RESMELT_LOGS);
    s.append(failure_logs);
    s.append(RESMELT_GIT);
    s.append(ctx.git_diff.as_str());
    s.append(RESMELT_TASK);
    s.append(ingot.id.as_str());
    s.append(RESMELT_GRADE);
    push_decimal(&mut s, ingot.grade as u64);
    s.append(RESMELT_SKILL);
    s.append(ingot.skill.as_str());
    s.append(RESMELT_SPLIT_A);
    s.append(ingot.id.as_str());
    s.append(RESMELT_SPLIT_B);
    s.append(ingot.id.as_str());
    s.append(RESMELT_TAIL);
    s
}

/// The planning request that turns a commission into a blueprint.
pub fn surveyor_prompt(ore: &str) -> (r: String)
    ensures
        r@ == SURVEY_HEAD@ + ore@ + SURVEY_TAIL@,
{
    let mut s = String::new();
    s.append(SURVEY_HEAD);
    s.append(ore);
    s.append(SURVEY_TAIL);
    s
}

/// The request that turns a commission and its blueprint into unit records.
pub fn founder_prompt(ore: &str, blueprint: &str) -> (r: String)
    ensures
        r@ == FOUNDER_HEAD@ + ore@ + FOUNDER_MID@ + blueprint@ + FOUNDER_TAIL@,
{
    let mut s = String::new();
    s.append(FOUNDER_HEAD);
    s.append(ore);
    s.append(FOUNDER_MID);
    s.append(blueprint);
    s.append(FOUNDER_TAIL);
    s
}

/// The request for replacement units, given one `[id] work` line per failed unit.
pub fn regenerate_prompt(descriptions: &str) -> (r: String)
    ensures
        r@ == REGENERATE_HEAD@ + descriptions@ + REGENERATE_TAIL@,
{
    let mut s = String::new();
    s.append(REGENERATE_HEAD);
    s.append(descriptions);
    s.append(REGENERATE_TAIL);
    s
}

/// A request sent to an agent working in an isolated working tree.
pub fn worktree_prompt(path: &str, prompt: &str) -> (r: String)
    ensures
        r@ == WORKTREE_HEAD@ + path@ + WORKTREE_MID@ + prompt@,
{
    let mut s = String::new();
    s.append(WORKTREE_HEAD);
    s.append(path);
    s.append(WORKTREE_MID);
    s.append(prompt);
    s
}

pub open spec fn verdict(b: bool) -> Seq<char> {
    if b {
        "PASSED"@
    } else {
        "FAILED"@
    }
}

pub open spec fn head_chars(s: Seq<char>, n: nat) -> Seq<char> {
    if s.len() > n {
        s.subrange(0, n as int)
    } else {
        s
    }
}

pub open spec fn detail(failed: bool, label: Seq<char>, out: Seq<char>, n: nat) -> Seq<char> {
    if failed {
        label + head_chars(out, n)
    } else {
        seq![]
    }
}

/// What a failed check printed, each cut to its first characters.
pub open spec fn ci_details(ci: CiResult) -> Seq<char> {
    if ci.fmt_passed && ci.clippy_passed && ci.test_passed {
        seq![]
    } else {
        "CI FAILURE DETAILS:\n"@ + detail(!ci.fmt_passed, "- fmt: "@, ci.fmt_output@, 200) + "\n"@
            + detail(!ci.clippy_passed, "- clippy: "@, ci.clippy_output@, 500) + "\n"@ + detail(
            !ci.test_passed,
            "- test: "@,
            ci.test_output@,
            500,
        )
    }
}

pub open spec fn review_text(id: Seq<char>, branch: Seq<char>, diff: Seq<char>, ci: CiResult) -> Seq<char> {
    REVIEW_HEAD@ + id + REVIEW_BRANCH@ + branch + REVIEW_FMT@ + verdict(ci.fmt_passed)
        + REVIEW_CLIPPY@ + verdict(ci.clippy_passed) + REVIEW_TEST@ + verdict(ci.test_passed)
        + REVIEW_GAP@ + ci_details(ci) + REVIEW_DIFF@ + diff + REVIEW_TAIL@
}

fn push_head(s: &mut String, out: &String, n: usize)
    ensures
        final(s)@ == old(s)@ + head_chars(out@, n as nat),
{
    let v = chars_of(out.as_str());
    let hi = if v.len() > n {
        n
    } else {
        v.len()
    };
    push_chars(s, &slice_of(&v, 0, hi));
    assert(v.len() <= n ==> v@.subrange(0, hi as int) =~= v@);
}

fn push_detail(s: &mut String, failed: bool, label: &str, out: &String, n: usize)
    ensures
        final(s)@ == old(s)@ + detail(failed, label@, out@, n as nat),
{
    if failed {
        s.append(label);
        push_head(s, out, n);
        assert(s@ =~= old(s)@ + detail(failed, label@, out@, n as nat));
    } else {
        assert(old(s)@ + seq![] =~= old(s)@);
    }
}

fn push_verdict(s: &mut String, b: bool)
    ensures
        final(s)@ == old(s)@ + verdict(b),
{
    if b {
        s.append("PASSED");
    } else {
        s.append("FAILED");
    }
}

/// The request asking an agent to review a unit's branch.
pub fn prepare_review_flux(ingot_id: &str, branch: &str, diff: &str, ci_result: &CiResult) -> (r: String)
    ensures
        r@ == review_text(ingot_id@, branch@, diff@, *ci_result),
{
    let mut s = String::new();
    s.append(REVIEW_HEAD);
    s.append(ingot_id);
    s.append(REVIEW_BRANCH);
    s.append(branch);
    s.append(REVIEW_FMT);
    push_verdict(&mut s, ci_result.fmt_passed);
    s.append(REVIEW_CLIPPY);
    push_verdict(&mut s, ci_result.clippy_passed);
    s.append(REVIEW_TEST);
    push_verdict(&mut s, ci_result.test_passed);
    s.append(REVIEW_GAP);
    let ghost before = s@;
    if !ci_result.passed() {
        s.append("CI FAILURE DETAILS:\n");
        push_detail(&mut s, !ci_result.fmt_passed, "- fmt: ", &ci_result.fmt_output, 200);
        s.append("\n");
        push_detail(&mut s, !ci_result.clippy_passed, "- clippy: ", &ci_result.clippy_output, 500);
        s.append("\n");
        push_detail(&mut s, !ci_result.test_passed, "- test: ", &ci_result.test_output, 500);
    }
    assert(s@ =~= before + ci_details(*ci_result));
    s.append(REVIEW_DIFF);
    s.append(diff);
    s.append(REVIEW_TAIL);
    s
}

} // verus!
