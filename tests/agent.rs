use slag::cli::{Cli, Command};
use slag::config::{project_path, PipelineConfig, SmithConfig};
use slag::error::SlagError;
use slag::flux::{founder_prompt, prepare_flux, prepare_review_flux, regenerate_prompt, surveyor_prompt, FluxContext};
use slag::review::{ci_gate, judge_review, parse_review, review_outcome, CiResult, GateDecision};
use slag::smith::{has_questions, self_query_prompt, shell_words, wants_self_query, ClaudeSmith, MockSmith};
use slag::tui::{format_elapsed, heat_bar, truncate};

#[test]
fn shell_words_basic() {
    let words = shell_words("smith --dangerously-skip-permissions -p");
    assert_eq!(words, vec!["smith", "--dangerously-skip-permissions", "-p"]);
}

#[test]
fn shell_words_quoted() {
    let words = shell_words("smith -p --allowedTools 'Bash Edit Read'");
    assert_eq!(words, vec!["smith", "-p", "--allowedTools", "Bash Edit Read"]);
}

#[test]
fn shell_words_double_quoted() {
    let words = shell_words(r#"smith -p --allowedTools "Bash Edit Read""#);
    assert_eq!(words, vec!["smith", "-p", "--allowedTools", "Bash Edit Read"]);
}

#[test]
fn shell_words_edges() {
    assert!(shell_words("").is_empty());
    assert!(shell_words("   ").is_empty());
    assert_eq!(shell_words("a 'b c"), vec!["a", "b c"]);
    assert_eq!(shell_words("''"), vec![""]);
}

#[test]
fn detect_questions() {
    assert!(has_questions("What framework should we use?"));
    assert!(has_questions("**Question**: which approach?"));
    assert!(has_questions("Should we use React or Vue?"));
    assert!(!has_questions("# Blueprint\nThis is a plan."));
    assert!(!has_questions("Create the file structure."));
}

#[test]
fn self_query_rounds() {
    assert!(wants_self_query("Which one?", 0, 3));
    assert!(!wants_self_query("Which one?", 3, 3));
    assert!(!wants_self_query("Done.", 0, 3));
    assert!(self_query_prompt("raw").starts_with("raw\n\n---\n[SELF-QUERY RESOLUTION]"));
}

#[test]
fn fixed_response() {
    let mut smith = MockSmith::fixed("Hello from mock");
    let result = smith.invoke("test prompt").unwrap();
    assert_eq!(result, "Hello from mock");
    assert_eq!(smith.call_count(), 1);
}

#[test]
fn cycling_responses() {
    let mut smith = MockSmith::new(vec!["first".into(), "second".into()]);
    assert_eq!(smith.invoke("a").unwrap(), "first");
    assert_eq!(smith.invoke("b").unwrap(), "second");
    assert_eq!(smith.invoke("c").unwrap(), "first");
}

#[test]
fn failing_smith() {
    let mut smith = MockSmith::failing();
    assert!(smith.invoke("test").is_err());
    assert_eq!(smith.call_count(), 1);
}

#[test]
fn smith_smith_commands() {
    let cfg = SmithConfig::from_base("smith --dangerously-skip-permissions -p");
    assert_eq!(ClaudeSmith::base(&cfg).command(), "smith --dangerously-skip-permissions -p");
    assert_eq!(
        ClaudeSmith::plan(&cfg).command(),
        "smith --dangerously-skip-permissions -p --permission-mode plan"
    );
    assert_eq!(ClaudeSmith::from_config(&cfg, "ui", 1).command(), cfg.web);
    assert_eq!(ClaudeSmith::new("x y".to_string()).command(), "x y");
}

#[test]
fn pipeline_config() {
    let p = PipelineConfig::new(true, 3, false, false, false, false, 2);
    assert!(p.should_review());
    assert_eq!(p.max_retry, 2);
    assert!(!PipelineConfig::new(true, 3, true, false, false, false, 0).should_review());
    assert!(!PipelineConfig::new(false, 3, false, false, false, false, 0).should_review());
    assert_eq!(project_path("PLAN.md"), "PLAN.md");
}

#[test]
fn commission_joins_words() {
    let mut cli = Cli {
        command: None,
        commission: vec!["build".into(), "a".into(), "site".into()],
        worktree: false,
        anvils: 3,
        skip_review: false,
        keep_branches: false,
        ci_only: false,
        review_all: false,
        retry: 3,
    };
    assert_eq!(cli.commission_text(), Some("build a site".to_string()));
    cli.commission.clear();
    cli.command = Some(Command::Status);
    assert_eq!(cli.commission_text(), None);
}

fn ci(f: bool, c: bool, t: bool) -> CiResult {
    CiResult {
        fmt_passed: f,
        fmt_output: "fmt says".into(),
        clippy_passed: c,
        clippy_output: "clippy says".into(),
        test_passed: t,
        test_output: "tests say".into(),
    }
}

#[test]
fn ci_summary_and_gate() {
    assert_eq!(ci(true, false, true).summary(), "fmt:✓ clippy:✗ test:✓");
    assert!(ci(true, true, true).passed());
    let base = PipelineConfig::new(true, 3, false, false, false, false, 0);
    assert_eq!(ci_gate(&base, &ci(true, false, true)), GateDecision::Reject);
    assert_eq!(ci_gate(&base, &ci(true, true, true)), GateDecision::Review);
    let only = PipelineConfig::new(true, 3, false, false, true, false, 0);
    assert_eq!(ci_gate(&only, &ci(true, true, true)), GateDecision::Merge);
    let all = PipelineConfig::new(true, 3, false, false, true, true, 0);
    assert_eq!(ci_gate(&all, &ci(false, true, true)), GateDecision::Reject);
    let all_review = PipelineConfig::new(true, 3, false, false, false, true, 0);
    assert_eq!(ci_gate(&all_review, &ci(false, true, true)), GateDecision::Review);
}

#[test]
fn review_verdicts() {
    let r = parse_review("STATUS: REJECTED\nCOMMENTS:\nbad\nworse\n", true);
    assert!(!r.approved);
    assert_eq!(r.comments, "bad worse");
    let r = parse_review("looks fine, approved.\nline two\nline three\nline four", false);
    assert!(r.approved);
    assert_eq!(r.comments, "looks fine, approved. line two line three");
    let r = parse_review("hmm", true);
    assert!(r.approved);
    let r = parse_review("hmm", false);
    assert!(!r.approved);
    let r = judge_review("x", "X REJECTED", true);
    assert!(!r.approved);
    assert!(matches!(review_outcome(0, 2), Err(SlagError::ReviewFailed(2))));
    assert!(review_outcome(1, 2).is_ok());
    assert!(review_outcome(0, 0).is_ok());
}

#[test]
fn prompts_hold_their_inputs() {
    let s = surveyor_prompt("make a game");
    assert!(s.starts_with("ROLE: Master Surveyor."));
    assert!(s.contains("COMMISSION:\nmake a game\n\nCreate a thorough BLUEPRINT"));
    let f = founder_prompt("ore text", "bp text");
    assert!(f.contains("COMMISSION:\nore text\n\nBLUEPRINT:\nbp text\n\nOUTPUT:"));
    let r = prepare_review_flux("i1", "forge/i1", "DIFF", &ci(false, true, true));
    assert!(r.contains("INGOT: i1\nBRANCH: forge/i1\n"));
    assert!(r.contains("- Format check (cargo fmt --check): FAILED\n"));
    assert!(r.contains("CI FAILURE DETAILS:\n- fmt: fmt says\n\n\n=== DIFF ===\nDIFF\n"));
    assert!(regenerate_prompt("[a] A").contains("[a] A"));
    let u = slag::parser::parse_ingot("(unit :id i9 :grade 4 :skill web :description \"W\" :attempt 1 :attempt_limit 6)").unwrap();
    let ctx = FluxContext {
        blueprint: "BP".into(),
        alloy: "AL".into(),
        crucible: "CR".into(),
        ledger: "LG".into(),
        git_diff: "GD".into(),
    };
    let p = prepare_flux(&u, None, &ctx);
    assert!(p.starts_with("=== FORGE ORDER ===\n[i9] W\nGrade: 4 ◉ COMPLEX\nSkill: web (Playwright available)\nHeat: 1/6\n"));
    assert!(p.contains("4. End with exactly: COMMAND: <shell command to verify>"));
    let q = prepare_flux(&u, Some("it broke"), &ctx);
    assert!(q.contains("!!! CRACKED - PREVIOUS ATTEMPT FAILED !!!\nit broke\n"));
    let z = slag::flux::prepare_resmelt_flux(&u, "LOGS", &ctx);
    assert!(z.contains("FAILURE LOGS:\nLOGS\n"));
    assert!(z.contains("(unit :id \"i9\" :status pending :independent t :grade 4 :skill web :attempt 0"));
}

#[test]
fn display_helpers() {
    assert_eq!(truncate("abcdef", 3), "abc...");
    assert_eq!(truncate("abc", 3), "abc");
    assert_eq!(truncate("héllo", 2), "h...");
    assert_eq!(truncate("héllo", 3), "hé...");
    assert_eq!(truncate("é", 1), "...");
    assert_eq!(truncate("hé", 3), "hé");
    assert_eq!(heat_bar(2, 5), "[▪▪▫▫▫]");
    assert_eq!(heat_bar(0, 0), "[]");
    assert_eq!(format_elapsed(59), "59s");
    assert_eq!(format_elapsed(61), "1m01s");
    assert_eq!(format_elapsed(754), "12m34s");
}

#[test]
fn error_messages() {
    assert_eq!(SlagError::IngotCracked("i1".into(), 5).message(), "ingot i1 cracked after 5 heats");
    assert_eq!(SlagError::ForgeFailed(3).message(), "forge failed: 3 ingots cracked");
    assert_eq!(SlagError::ReviewFailed(2).message(), "review failed: 2 branches rejected");
    assert_eq!(
        SlagError::ProofFailed { id: "a".into(), reason: "r".into() }.message(),
        "proof failed for a: r"
    );
    assert_eq!(SlagError::NoOre.message(), "no PRD.md found — provide a commission");
}
