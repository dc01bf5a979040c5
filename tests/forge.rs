use slag::analysis::{
    apply_analyses, classify_failure, cracked_ids, detect_failure_pattern, extract_file_from_proof,
    extract_missing_file, force_retry, needs_regenerate, recommend_action, regenerate_cracked,
    AnalysisAction, CrackedAnalysis, FailurePattern,
};
use slag::crucible::Crucible;
use slag::directive::{extract_cmd, proof_is_trivial, proof_result};
use slag::error::SlagError;
use slag::forge::{
    branch_name, plan_forge_step, settle_failure, ForgeResult, ForgeStep, Strike, StrikeAction,
    StrikeEvent,
};
use slag::resmelt::{resmelt_gate, resmelt_ingot};
use slag::{Ingot, Skill, Status};

fn load(content: &str) -> Crucible {
    Crucible::from_content("PLAN.md", content)
}

#[test]
fn extract_cmd_basic() {
    let response = "Created files...\nCOMMAND: npm test\n";
    assert_eq!(extract_cmd(response), Some("npm test".to_string()));
}

#[test]
fn extract_cmd_last() {
    let response = "COMMAND: echo first\nmore stuff\nCOMMAND: echo second\n";
    assert_eq!(extract_cmd(response), Some("echo second".to_string()));
}

#[test]
fn extract_cmd_none() {
    let response = "No command here\njust text\n";
    assert_eq!(extract_cmd(response), None);
}

#[test]
fn extract_cmd_with_spaces() {
    let response = "COMMAND:   test -f package.json && npm test  \n";
    assert_eq!(
        extract_cmd(response),
        Some("test -f package.json && npm test".to_string())
    );
}

#[test]
fn extract_cmd_last_line_wins_without_final_newline() {
    assert_eq!(
        extract_cmd("COMMAND: echo first\nmore\nCOMMAND: echo second"),
        Some("echo second".to_string())
    );
    assert_eq!(extract_cmd("  COMMAND: indented is not a directive"), None);
}

#[test]
fn first_step_dispatches_independent_pair_then_sequential() {
    let mut c = load("(unit :id i1)\n(unit :id i2)\n(unit :id i3 :independent nil)\n");
    match plan_forge_step(&mut c, 2) {
        ForgeStep::Parallel(ids) => assert_eq!(ids, vec!["i1".to_string(), "i2".to_string()]),
        other => panic!("expected a parallel batch, got {:?}", other),
    }
    assert_eq!(c.get("i1").unwrap().status, Status::Molten);
    assert_eq!(c.get("i2").unwrap().status, Status::Molten);
    assert_eq!(c.get("i3").unwrap().status, Status::Ore);
    c.set_status("i1", Status::Forged);
    c.set_status("i2", Status::Forged);
    match plan_forge_step(&mut c, 2) {
        ForgeStep::Sequential(id) => assert_eq!(id, "i3"),
        other => panic!("expected the sequential unit, got {:?}", other),
    }
    assert_eq!(c.get("i3").unwrap().status, Status::Molten);
    c.set_status("i3", Status::Forged);
    assert!(matches!(plan_forge_step(&mut c, 2), ForgeStep::Complete));
}

#[test]
fn batch_width_is_bounded() {
    let mut c = load("(unit :id a)\n(unit :id b)\n(unit :id c)\n");
    match plan_forge_step(&mut c, 2) {
        ForgeStep::Parallel(ids) => assert_eq!(ids.len(), 2),
        other => panic!("unexpected {:?}", other),
    }
    assert_eq!(c.get("c").unwrap().status, Status::Ore);
}

#[test]
fn stale_in_progress_units_are_queued_again() {
    let mut c = load("(unit :id a :status in_progress :independent nil)\n(unit :id b :status done)\n");
    match plan_forge_step(&mut c, 3) {
        ForgeStep::Sequential(id) => assert_eq!(id, "a"),
        other => panic!("unexpected {:?}", other),
    }
}

#[test]
fn failed_units_exhaust_the_run() {
    let mut c = load("(unit :id a :status failed)\n(unit :id b :status done)\n");
    match plan_forge_step(&mut c, 3) {
        ForgeStep::Exhausted(n) => assert_eq!(n, 1),
        other => panic!("unexpected {:?}", other),
    }
}

#[test]
fn zero_width_runs_units_one_at_a_time() {
    let mut c = load("(unit :id a)\n");
    assert!(matches!(plan_forge_step(&mut c, 0), ForgeStep::Sequential(_)));
}

fn drive_to_exhaustion(c: &mut Crucible, id: &str, reply: &str) -> (usize, Option<String>) {
    let unit = c.get(id).unwrap().duplicate();
    let mut strike = Strike::new(&unit);
    let mut action = StrikeAction::CountAttempt;
    let mut invocations = 0;
    loop {
        action = match action {
            StrikeAction::CountAttempt => {
                let left = c.begin_attempt(id);
                strike.next(StrikeEvent::Counted(left))
            }
            StrikeAction::Invoke => {
                invocations += 1;
                strike.next(StrikeEvent::AgentReplied(reply.to_string()))
            }
            StrikeAction::GiveUp => break,
            other => panic!("unexpected {:?}", other),
        };
    }
    (invocations, strike.slag.clone())
}

#[test]
fn missing_directive_exhausts_attempts_then_reads_as_protocol_failure() {
    let mut c = load("(unit :id a :attempt_limit 3 :proof \"true\")\n");
    let (tries, slag) = drive_to_exhaustion(&mut c, "a", "I did the work.\nAll good.");
    assert_eq!(tries, 3);
    assert_eq!(c.get("a").unwrap().heat, 3);
    let slag = slag.unwrap();
    assert_eq!(slag, "NO COMMAND: line in response");
    c.set_status("a", Status::Cracked);
    let u = c.get("a").unwrap().duplicate();
    let p = detect_failure_pattern(&u, &vec![slag]);
    assert!(matches!(p, FailurePattern::ProtocolFailure));
    assert_eq!(recommend_action(&p, &u), AnalysisAction::Retry);
}

#[test]
fn proof_runs_after_a_different_command_and_decides() {
    let u = slag::parser::parse_ingot("(unit :id a :proof \"test -f out.txt\")").unwrap();
    let mut s = Strike::new(&u);
    assert_eq!(s.next(StrikeEvent::Counted(true)), StrikeAction::Invoke);
    assert_eq!(
        s.next(StrikeEvent::AgentReplied("COMMAND: touch out.txt".to_string())),
        StrikeAction::RunCommand("touch out.txt".to_string())
    );
    assert_eq!(
        s.next(StrikeEvent::CommandRan(true, String::new())),
        StrikeAction::RunProof("test -f out.txt".to_string())
    );
    assert_eq!(
        s.next(StrikeEvent::ProofRan(false, "missing".to_string())),
        StrikeAction::CountAttempt
    );
    assert_eq!(s.slag.as_deref(), Some("Proof failed [test -f out.txt]: missing"));
    assert_eq!(s.next(StrikeEvent::Counted(true)), StrikeAction::Invoke);
    s.next(StrikeEvent::AgentReplied("COMMAND: touch out.txt".to_string()));
    s.next(StrikeEvent::CommandRan(true, String::new()));
    assert_eq!(s.next(StrikeEvent::ProofRan(true, String::new())), StrikeAction::Commit);
}

#[test]
fn proof_is_skipped_when_trivial_or_same_as_command() {
    let u = slag::parser::parse_ingot("(unit :id a :proof \"npm test\")").unwrap();
    let mut s = Strike::new(&u);
    s.next(StrikeEvent::Counted(true));
    s.next(StrikeEvent::AgentReplied("COMMAND: npm test".to_string()));
    assert_eq!(s.next(StrikeEvent::CommandRan(true, String::new())), StrikeAction::Commit);
    let t = slag::parser::parse_ingot("(unit :id b)").unwrap();
    let mut s = Strike::new(&t);
    s.next(StrikeEvent::Counted(true));
    s.next(StrikeEvent::AgentReplied("COMMAND: make".to_string()));
    assert_eq!(s.next(StrikeEvent::CommandRan(true, String::new())), StrikeAction::Commit);
}

#[test]
fn failures_become_the_next_message() {
    let u = slag::parser::parse_ingot("(unit :id a)").unwrap();
    let mut s = Strike::new(&u);
    s.next(StrikeEvent::Counted(true));
    assert_eq!(s.next(StrikeEvent::AgentFailed("spawn".to_string())), StrikeAction::CountAttempt);
    assert_eq!(s.slag.as_deref(), Some("Smith error: spawn"));
    s.next(StrikeEvent::Counted(true));
    s.next(StrikeEvent::AgentReplied("COMMAND: false".to_string()));
    assert_eq!(s.next(StrikeEvent::CommandRan(false, "boom".to_string())), StrikeAction::CountAttempt);
    assert_eq!(s.slag.as_deref(), Some("CMD failed (exit 1): boom"));
    assert_eq!(s.next(StrikeEvent::Counted(false)), StrikeAction::GiveUp);
}

#[test]
fn resmelt_refuses_a_second_pass() {
    let text = "(unit :id a :escalation 1 :status failed)\n";
    let mut c = load(text);
    let u = c.get("a").unwrap().duplicate();
    assert!(matches!(resmelt_gate(&u), Err(SlagError::IngotCracked(_, 5))));
    let r = resmelt_ingot(&mut c, &u, "REWRITE:\n(unit :id \"a2\")\n");
    assert!(matches!(r, Err(SlagError::IngotCracked(ref id, 5)) if id == "a"));
    assert_eq!(c.to_content(), load(text).to_content());
}

#[test]
fn resmelt_splits_in_place() {
    let mut c = load("(unit :id x)\n(unit :id a :status in_progress :attempt 5)\n(unit :id z)\n");
    let u = c.get("a").unwrap().duplicate();
    assert!(resmelt_gate(&u).is_ok());
    let reply = "SPLIT:\n(unit :id \"aa\" :status done :attempt 4)\n(unit :id \"ab\")\n";
    assert!(resmelt_ingot(&mut c, &u, reply).is_ok());
    let ids: Vec<&str> = c.ingots.iter().map(|u| u.id.as_str()).collect();
    assert_eq!(ids, vec!["x", "aa", "ab", "z"]);
    let aa = c.get("aa").unwrap();
    assert_eq!((aa.status, aa.heat, aa.smelt), (Status::Ore, 0, 1));
}

#[test]
fn resmelt_impossible_or_unparseable_fails() {
    let mut c = load("(unit :id a)\n");
    let u = c.get("a").unwrap().duplicate();
    assert!(resmelt_ingot(&mut c, &u, "IMPOSSIBLE: no network").is_err());
    assert!(resmelt_ingot(&mut c, &u, "just words").is_err());
    assert_eq!(c.ingots.len(), 1);
}

#[test]
fn settle_failure_marks_failed_or_replaces() {
    let mut c = load("(unit :id a :status in_progress)\n(unit :id b :status in_progress :escalation 1)\n");
    assert!(!settle_failure(&mut c, "a", None));
    assert_eq!(c.get("a").unwrap().status, Status::Cracked);
    assert!(!settle_failure(&mut c, "b", Some("(unit :id b2)")));
    assert_eq!(c.get("b").unwrap().status, Status::Cracked);
    let mut d = load("(unit :id a :status in_progress)\n");
    assert!(settle_failure(&mut d, "a", Some("(unit :id a1)")));
    assert_eq!(d.ingots[0].id, "a1");
}

#[test]
fn forge_result_branch_follows_worktree() {
    let r = ForgeResult::finished("i7", Some("../wt".to_string()));
    assert_eq!(r.branch.as_deref(), Some("forge/i7"));
    let s = ForgeResult::finished("i7", None);
    assert!(s.branch.is_none());
    assert_eq!(branch_name("q"), "forge/q");
}

fn cracked(text: &str) -> Ingot {
    slag::parser::parse_ingot(text).unwrap()
}

#[test]
fn classification_reads_logs_in_order() {
    let u = cracked("(unit :id a :status failed :proof \"npm test\")");
    let logs = vec![
        "all fine".to_string(),
        "cat: data.json: No such file or directory".to_string(),
        "NO COMMAND: line".to_string(),
    ];
    match detect_failure_pattern(&u, &logs) {
        FailurePattern::MissingDependency { file } => assert_eq!(file, "No such file or directory"),
        other => panic!("unexpected {:?}", other),
    }
    let p = detect_failure_pattern(&u, &vec!["jq: error".to_string()]);
    assert!(matches!(p, FailurePattern::ProofMismatch));
    let p = detect_failure_pattern(&u, &vec!["proof failed here".to_string()]);
    assert!(matches!(p, FailurePattern::ProofMismatch));
    let p = detect_failure_pattern(&u, &vec![]);
    assert!(matches!(p, FailurePattern::Unknown));
}

#[test]
fn classification_falls_back_to_the_proof() {
    let u = cracked("(unit :id a :status failed :proof \"TEST -F dist/app.js\")");
    match detect_failure_pattern(&u, &vec![]) {
        FailurePattern::MissingDependency { file } => assert_eq!(file, "dist/app.js"),
        other => panic!("unexpected {:?}", other),
    }
    let v = cracked("(unit :id a :status failed :proof \"test -f dist/app.js\")");
    match classify_failure(&v, &vec![], "test -f dist/app.js") {
        FailurePattern::MissingDependency { file } => assert_eq!(file, "dist/app.js"),
        other => panic!("unexpected {:?}", other),
    }
    let w = cracked("(unit :id a :independent nil :proof \"test -f x\")");
    assert!(matches!(detect_failure_pattern(&w, &vec![]), FailurePattern::Unknown));
}

#[test]
fn file_extraction() {
    assert_eq!(extract_file_from_proof("test -f src/main.rs"), Some("src/main.rs".to_string()));
    assert_eq!(extract_file_from_proof("jq . data/x.json"), Some("data/x.json".to_string()));
    assert_eq!(extract_file_from_proof("npm test -- ./a/b"), Some("./a/b".to_string()));
    assert_eq!(extract_file_from_proof("test -f -x"), None);
    assert_eq!(extract_file_from_proof("true"), None);
    assert_eq!(
        extract_missing_file("bash: line 1: No such file: config.toml\n"),
        Some("config.toml".to_string())
    );
    assert_eq!(extract_missing_file("test -f a.txt failed\n"), Some("a.txt".to_string()));
    assert_eq!(extract_missing_file("nothing"), None);
}

#[test]
fn actions_by_pattern_and_tier() {
    let mut u = cracked("(unit :id a)");
    let miss = FailurePattern::MissingDependency { file: "f".to_string() };
    assert_eq!(recommend_action(&miss, &u), AnalysisAction::MakeSequential);
    u.solo = false;
    assert_eq!(recommend_action(&miss, &u), AnalysisAction::Regenerate);
    assert_eq!(recommend_action(&FailurePattern::ProtocolFailure, &u), AnalysisAction::Retry);
    assert_eq!(recommend_action(&FailurePattern::ProofMismatch, &u), AnalysisAction::Retry);
    assert_eq!(recommend_action(&FailurePattern::Unknown, &u), AnalysisAction::Retry);
    u.smelt = 1;
    assert_eq!(recommend_action(&FailurePattern::ProofMismatch, &u), AnalysisAction::Regenerate);
    assert_eq!(recommend_action(&FailurePattern::Unknown, &u), AnalysisAction::Retry);
    u.smelt = 2;
    assert_eq!(recommend_action(&FailurePattern::ProtocolFailure, &u), AnalysisAction::Regenerate);
    assert_eq!(recommend_action(&FailurePattern::Unknown, &u), AnalysisAction::Regenerate);
    u.smelt = 3;
    assert_eq!(recommend_action(&FailurePattern::Unknown, &u), AnalysisAction::Skip);
}

#[test]
fn analyses_are_applied_to_the_ledger() {
    let mut c = load(
        "(unit :id a :status failed :attempt 5 :escalation 1)\n(unit :id b :status failed :attempt 5)\n(unit :id c :status failed)\n",
    );
    assert_eq!(cracked_ids(&c), vec!["a".to_string(), "b".to_string(), "c".to_string()]);
    let plan = vec![
        CrackedAnalysis { id: "a".into(), pattern: FailurePattern::Unknown, recommendation: AnalysisAction::Retry },
        CrackedAnalysis { id: "b".into(), pattern: FailurePattern::Unknown, recommendation: AnalysisAction::MakeSequential },
        CrackedAnalysis { id: "c".into(), pattern: FailurePattern::Unknown, recommendation: AnalysisAction::Skip },
    ];
    assert!(!needs_regenerate(&plan));
    apply_analyses(&mut c, &plan);
    let a = c.get("a").unwrap();
    assert_eq!((a.status, a.heat, a.smelt, a.solo), (Status::Ore, 0, 1, true));
    let b = c.get("b").unwrap();
    assert_eq!((b.status, b.heat, b.solo), (Status::Ore, 0, false));
    assert_eq!(c.get("c").unwrap().status, Status::Cracked);
    force_retry(&mut c, &vec!["c".to_string()]);
    assert_eq!(c.get("c").unwrap().status, Status::Ore);
}

#[test]
fn regeneration_replaces_or_falls_back() {
    let text = "(unit :id a :status done)\n(unit :id b :status failed :escalation 2)\n(unit :id c :status failed)\n";
    let mut c = load(text);
    let ids = vec!["b".to_string(), "c".to_string()];
    assert!(regenerate_cracked(&mut c, &ids, "(unit :id n1 :attempt 9)\n(unit :id n2)\n"));
    let got: Vec<&str> = c.ingots.iter().map(|u| u.id.as_str()).collect();
    assert_eq!(got, vec!["a", "n1", "n2"]);
    assert_eq!((c.ingots[1].heat, c.ingots[1].smelt), (0, 3));
    let mut d = load(text);
    assert!(!regenerate_cracked(&mut d, &ids, "sorry"));
    let b = d.get("b").unwrap();
    assert_eq!((b.status, b.solo, b.smelt), (Status::Ore, false, 2));
}

#[test]
fn skill_of_units_selects_agent() {
    let cfg = slag::config::SmithConfig::from_base("agent");
    assert_eq!(cfg.select("css", 1), "agent --allowedTools 'Bash Edit Read Write Playwright'");
    assert_eq!(cfg.select("web", 3), "agent --allowedTools 'Bash Edit Read Write Playwright' --permission-mode plan");
    assert_eq!(cfg.select("api", 4), "agent --permission-mode plan");
    assert_eq!(cfg.select("cli", 2), "agent");
    let _ = Skill::Default;
}

#[test]
fn proof_verdicts() {
    assert!(proof_is_trivial(""));
    assert!(proof_is_trivial("true"));
    assert!(!proof_is_trivial("test -f /nonexistent_file_xyz"));
    assert!(proof_result("i1", true, String::new()).is_ok());
    match proof_result("i1", false, "no file".to_string()) {
        Err(SlagError::ProofFailed { id, reason }) => {
            assert_eq!(id, "i1");
            assert_eq!(reason, "no file");
        }
        other => panic!("unexpected {:?}", other),
    }
}
