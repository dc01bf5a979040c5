use slag::crucible::{parse_ingot_lines, Crucible, CrucibleCounts};
use slag::{Ingot, Skill, Status};

fn sample_crucible() -> String {
    r#";; CRUCIBLE 2026-01-27
;; Blueprint: BLUEPRINT.md
(unit :id "i1" :status pending :independent t :grade 1 :attempt 0 :attempt_limit 5 :proof "test -f file" :description "First task")
(unit :id "i2" :status done :independent nil :grade 2 :attempt 3 :attempt_limit 5 :proof "npm test" :description "Second task")
(unit :id "i3" :status pending :independent t :grade 1 :attempt 0 :attempt_limit 5 :proof "true" :description "Third task")
(unit :id "i4" :status failed :independent nil :grade 3 :attempt 5 :attempt_limit 5 :proof "curl -s url" :description "Fourth task")
"#
    .into()
}

fn load(content: &str) -> Crucible {
    Crucible::from_content("PLAN.md", content)
}

fn unit(id: &str, work: &str, proof: &str) -> Ingot {
    Ingot {
        id: id.into(),
        status: Status::Ore,
        solo: true,
        grade: 1,
        skill: Skill::Default,
        heat: 0,
        max: 5,
        smelt: 1,
        proof: proof.into(),
        work: work.into(),
        extra: vec![],
    }
}

#[test]
fn load_crucible() {
    let c = load(&sample_crucible());
    assert_eq!(c.ingots.len(), 4);
    assert_eq!(c.header_lines().len(), 2);
}

#[test]
fn counts() {
    let c = load(&sample_crucible());
    let counts = c.counts();
    assert_eq!(counts.total, 4);
    assert_eq!(counts.ore, 2);
    assert_eq!(counts.forged, 1);
    assert_eq!(counts.cracked, 1);
    assert_eq!(counts.molten, 0);
}

#[test]
fn set_status_and_save() {
    let mut c = load(&sample_crucible());
    c.set_status("i1", Status::Molten);
    let saved = c.to_content();
    let c2 = load(&saved);
    assert_eq!(c2.get("i1").unwrap().status, Status::Molten);
}

#[test]
fn increment_heat() {
    let mut c = load(&sample_crucible());
    assert_eq!(c.get("i1").unwrap().heat, 0);
    c.increment_heat("i1");
    assert_eq!(c.get("i1").unwrap().heat, 1);
    c.increment_heat("i1");
    assert_eq!(c.get("i1").unwrap().heat, 2);
}

#[test]
fn solo_ore() {
    let c = load(&sample_crucible());
    let solo = c.solo_ore();
    assert_eq!(solo.len(), 2);
    assert!(solo.iter().all(|i| i.solo));
}

#[test]
fn sequential_ore() {
    let c = load(&sample_crucible());
    assert!(c.sequential_ore().is_none());
}

#[test]
fn replace_single() {
    let mut c = load(&sample_crucible());
    let new_ingot = unit("i1", "Rewritten task", "test -f newfile");
    c.replace("i1", vec![new_ingot]);
    assert_eq!(c.ingots.len(), 4);
    assert_eq!(c.get("i1").unwrap().work, "Rewritten task");
    assert_eq!(c.get("i1").unwrap().smelt, 1);
}

#[test]
fn replace_split() {
    let mut c = load(&sample_crucible());
    let sub_a = unit("i1a", "Sub-task A", "true");
    let sub_b = unit("i1b", "Sub-task B", "true");
    c.replace("i1", vec![sub_a, sub_b]);
    assert_eq!(c.ingots.len(), 5);
    assert!(c.get("i1").is_none());
    assert!(c.get("i1a").is_some());
    assert!(c.get("i1b").is_some());
}

#[test]
fn has_pending() {
    let mut c = load(&sample_crucible());
    assert!(c.has_pending());
    c.set_status("i1", Status::Forged);
    c.set_status("i3", Status::Forged);
    assert!(!c.has_pending());
}

#[test]
fn pct_forged() {
    let c = load(&sample_crucible());
    assert_eq!(c.counts().pct_forged(), 25);
}

#[test]
fn pct_forged_of_empty_ledger_is_zero() {
    let c = CrucibleCounts { total: 0, ore: 0, molten: 0, forged: 0, cracked: 0 };
    assert_eq!(c.pct_forged(), 0);
    let d = CrucibleCounts { total: 3, ore: 1, molten: 0, forged: 2, cracked: 0 };
    assert_eq!(d.pct_forged(), 66);
}

#[test]
fn replace_split_keeps_position_and_raises_tier() {
    let mut c = load(&sample_crucible());
    let before = c.ingots.len();
    let mut a = unit("i3a", "A", "true");
    let mut b = unit("i3b", "B", "true");
    a.smelt = 0;
    b.smelt = 7;
    c.replace("i3", vec![a, b]);
    assert_eq!(c.ingots.len(), before + 1);
    let ids: Vec<&str> = c.ingots.iter().map(|u| u.id.as_str()).collect();
    assert_eq!(ids, vec!["i1", "i2", "i3a", "i3b", "i4"]);
    assert_eq!(c.get("i3a").unwrap().smelt, 1);
    assert_eq!(c.get("i3b").unwrap().smelt, 1);
}

#[test]
fn replace_single_new_id_keeps_count() {
    let mut c = load(&sample_crucible());
    c.replace("i2", vec![unit("x", "X", "true")]);
    assert_eq!(c.ingots.len(), 4);
    assert!(c.get("i2").is_none());
    assert!(c.get("x").is_some());
    assert_eq!(c.ingots[1].id, "x");
}

#[test]
fn replace_unknown_id_changes_nothing() {
    let mut c = load(&sample_crucible());
    c.replace("nope", vec![unit("x", "X", "true")]);
    assert_eq!(c.ingots.len(), 4);
    assert!(c.get("x").is_none());
}

#[test]
fn counts_add_up() {
    let mut c = load(&sample_crucible());
    c.set_status("i3", Status::Molten);
    let n = c.counts();
    assert_eq!(n.total, c.ingots.len());
    assert_eq!(n.ore + n.molten + n.forged + n.cracked, n.total);
    assert_eq!(n.molten, 1);
}

#[test]
fn load_save_load_is_stable() {
    let text = sample_crucible() + "(unit :id \"i5\" :status pending :custom \"a b\" :k v)\nstray note\n";
    let c = load(&text);
    let c2 = load(&c.to_content());
    assert_eq!(c2.header_lines().len(), c.header_lines().len());
    assert_eq!(c2.ingots.len(), c.ingots.len());
    for (a, b) in c.ingots.iter().zip(c2.ingots.iter()) {
        assert_eq!(a.id, b.id);
        assert_eq!(a.status, b.status);
        assert_eq!(a.heat, b.heat);
        assert_eq!(a.proof, b.proof);
        assert_eq!(a.work, b.work);
        assert_eq!(a.extra, b.extra);
    }
    assert_eq!(c.to_content(), c2.to_content());
}

#[test]
fn save_writes_header_then_records() {
    let c = load(";; head\n(unit :id a)\n");
    assert_eq!(
        c.to_content(),
        ";; head\n(unit :id \"a\" :status pending :independent t :grade 1 :skill default :attempt 0 :attempt_limit 5 :escalation 0 :proof \"true\" :description \"\")\n"
    );
}

#[test]
fn new_ledger_has_dated_header() {
    let c = Crucible::new("PLAN.md", vec![unit("a", "A", "true")]);
    let h = c.header_lines();
    assert_eq!(h.len(), 2);
    assert!(h[0].starts_with(";; CRUCIBLE 2"));
    assert!(h[0].len() > ";; CRUCIBLE ".len());
    assert_eq!(h[1], ";; Blueprint: BLUEPRINT.md");
    assert_eq!(c.ingots.len(), 1);
}

#[test]
fn begin_attempt_stops_at_limit() {
    let mut c = load("(unit :id a :attempt 1 :attempt_limit 2)\n");
    assert!(c.begin_attempt("a"));
    assert_eq!(c.get("a").unwrap().heat, 2);
    assert!(!c.begin_attempt("a"));
    assert_eq!(c.get("a").unwrap().heat, 2);
    assert!(!c.begin_attempt("zz"));
}

#[test]
fn next_and_sequential_ore() {
    let c = load("(unit :id a :status done)\n(unit :id b :independent nil)\n(unit :id c)\n");
    assert_eq!(c.next_ore().unwrap().id, "b");
    assert_eq!(c.sequential_ore().unwrap().id, "b");
    assert_eq!(c.position("c"), Some(2));
}

#[test]
fn ingot_lines_from_agent_output() {
    let us = parse_ingot_lines("REWRITE:\n(unit :id \"i1\" :escalation 1 :description \"w\")\n");
    assert_eq!(us.len(), 1);
    assert_eq!(us[0].smelt, 1);
}

#[test]
fn get_mut_changes_the_first_match_in_place() {
    let mut c = load(&sample_crucible());
    c.get_mut("i3").unwrap().heat = 4;
    assert_eq!(c.get("i3").unwrap().heat, 4);
    assert_eq!(c.ingots[2].heat, 4);
    assert!(c.get_mut("none").is_none());
}

#[test]
fn progress_entry_text() {
    let u = slag::parser::parse_ingot("(unit :id i2 :grade 3 :skill api :description \"Build API\")").unwrap();
    let e = slag::progress::ProgressEntry {
        ingot: &u,
        heat: 2,
        files_changed: vec!["a.rs".into(), "b.rs".into()],
        learnings: Some("use serde".into()),
    };
    assert_eq!(
        e.render("01-02 03:04"),
        "\n## 01-02 03:04 [i2] gr:3 skill:api\n- Build API\n- heats: 2\n- files: a.rs, b.rs\n- learned: use serde\n"
    );
    let bare = slag::progress::ProgressEntry { ingot: &u, heat: 1, files_changed: vec![], learnings: None };
    assert_eq!(bare.render("t"), "\n## t [i2] gr:3 skill:api\n- Build API\n- heats: 1\n");
}
