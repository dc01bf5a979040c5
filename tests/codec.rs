use slag::parser::{parse_crucible, parse_ingot};
use slag::writer::write_ingot;
use slag::{Ingot, Skill, Status};

#[test]
fn parse_basic_ingot() {
    let line = r#"(unit :id "i1" :status pending :independent t :grade 2 :skill web :attempt 0 :attempt_limit 5 :escalation 0 :proof "test -f index.html" :description "Create HTML structure")"#;
    let ingot = parse_ingot(line).unwrap();
    assert_eq!(ingot.id, "i1");
    assert_eq!(ingot.status, Status::Ore);
    assert!(ingot.solo);
    assert_eq!(ingot.grade, 2);
    assert_eq!(ingot.skill, Skill::Web);
    assert_eq!(ingot.heat, 0);
    assert_eq!(ingot.max, 5);
    assert_eq!(ingot.smelt, 0);
    assert_eq!(ingot.proof, "test -f index.html");
    assert_eq!(ingot.work, "Create HTML structure");
}

#[test]
fn parse_forged_ingot() {
    let line = r#"(unit :id "i3" :status done :independent nil :grade 3 :skill default :attempt 2 :attempt_limit 8 :proof "npm test" :description "Write tests")"#;
    let ingot = parse_ingot(line).unwrap();
    assert_eq!(ingot.id, "i3");
    assert_eq!(ingot.status, Status::Forged);
    assert!(!ingot.solo);
    assert_eq!(ingot.grade, 3);
    assert_eq!(ingot.heat, 2);
    assert_eq!(ingot.max, 8);
}

#[test]
fn parse_preserves_unknown_fields() {
    let line = r#"(unit :id "i1" :status pending :independent t :grade 1 :attempt 0 :attempt_limit 5 :proof "true" :description "test" :custom "hello")"#;
    let ingot = parse_ingot(line).unwrap();
    assert_eq!(ingot.extra.len(), 1);
    assert_eq!(ingot.extra[0], ("custom".to_string(), "hello".to_string()));
}

#[test]
fn parse_missing_optional_fields_uses_defaults() {
    let line = r#"(unit :id "i1" :status pending :independent t :grade 1 :attempt 0 :attempt_limit 5 :proof "test -f file" :description "Do something")"#;
    let ingot = parse_ingot(line).unwrap();
    assert_eq!(ingot.smelt, 0);
    assert_eq!(ingot.skill, Skill::Default);
}

#[test]
fn parse_non_ingot_returns_none() {
    assert!(parse_ingot(";; comment").is_none());
    assert!(parse_ingot("").is_none());
    assert!(parse_ingot("(not-ingot :id \"x\")").is_none());
}

#[test]
fn parse_crucible_content() {
    let content = r#";; CRUCIBLE 2026-01-27
;; Blueprint: BLUEPRINT.md
(unit :id "i1" :status pending :independent t :grade 1 :attempt 0 :attempt_limit 5 :proof "true" :description "First")
(unit :id "i2" :status done :independent nil :grade 2 :attempt 3 :attempt_limit 5 :proof "npm test" :description "Second")
"#;
    let ingots = parse_crucible(content);
    assert_eq!(ingots.len(), 2);
    assert_eq!(ingots[0].id, "i1");
    assert_eq!(ingots[1].id, "i2");
    assert_eq!(ingots[1].status, Status::Forged);
}

#[test]
fn roundtrip_parse_write() {
    let line = r#"(unit :id "i1" :status pending :independent t :grade 2 :skill web :attempt 0 :attempt_limit 5 :escalation 0 :proof "test -f index.html" :description "Create HTML structure")"#;
    let ingot = parse_ingot(line).unwrap();
    let written = write_ingot(&ingot);
    let reparsed = parse_ingot(&written).unwrap();
    assert_eq!(ingot.id, reparsed.id);
    assert_eq!(ingot.status, reparsed.status);
    assert_eq!(ingot.solo, reparsed.solo);
    assert_eq!(ingot.grade, reparsed.grade);
    assert_eq!(ingot.skill, reparsed.skill);
    assert_eq!(ingot.heat, reparsed.heat);
    assert_eq!(ingot.max, reparsed.max);
    assert_eq!(ingot.proof, reparsed.proof);
    assert_eq!(ingot.work, reparsed.work);
}

#[test]
fn parse_real_crucible_from_bash() {
    let content = r#";; CRUCIBLE Tue Jan 27 10:13:45 CET 2026
;; Blueprint: BLUEPRINT.md
(unit :id "i1" :status pending :independent t :grade 1 :attempt 0 :attempt_limit 5 :proof "test -f slag/wrangler.toml" :description "Verify wrangler config exists")
(unit :id "i2" :status pending :independent t :grade 1 :attempt 0 :attempt_limit 5 :proof "test -f slag/index.html" :description "Verify HTML entry point exists")
(unit :id "i6" :status pending :independent nil :grade 3 :attempt 0 :attempt_limit 8 :proof "curl -s https://slag.dev | grep -q 'slag orchestrator'" :description "Deploy to Cloudflare Pages and verify live")
"#;
    let ingots = parse_crucible(content);
    assert_eq!(ingots.len(), 3);
    assert_eq!(ingots[0].proof, "test -f slag/wrangler.toml");
    assert_eq!(ingots[2].grade, 3);
    assert_eq!(ingots[2].max, 8);
    assert!(!ingots[2].solo);
}

#[test]
fn write_basic_ingot() {
    let ingot = Ingot {
        id: "i1".into(),
        status: Status::Ore,
        solo: true,
        grade: 2,
        skill: Skill::Web,
        heat: 0,
        max: 5,
        smelt: 0,
        proof: "test -f index.html".into(),
        work: "Create HTML structure".into(),
        extra: vec![],
    };
    let s = write_ingot(&ingot);
    assert!(s.starts_with("(unit "));
    assert!(s.ends_with(')'));
    assert!(s.contains(":id \"i1\""));
    assert!(s.contains(":status pending"));
    assert!(s.contains(":independent t"));
    assert!(s.contains(":grade 2"));
    assert!(s.contains(":skill web"));
}

#[test]
fn write_sequential_ingot() {
    let ingot = Ingot {
        id: "i5".into(),
        status: Status::Cracked,
        solo: false,
        grade: 4,
        skill: Skill::Cli,
        heat: 6,
        max: 8,
        smelt: 1,
        proof: "npm test".into(),
        work: "Deploy app".into(),
        extra: vec![],
    };
    let s = write_ingot(&ingot);
    assert!(s.contains(":independent nil"));
    assert!(s.contains(":status failed"));
    assert!(s.contains(":escalation 1"));
}

#[test]
fn write_preserves_extra_fields() {
    let ingot = Ingot {
        id: "i1".into(),
        status: Status::Ore,
        solo: true,
        grade: 1,
        skill: Skill::Default,
        heat: 0,
        max: 5,
        smelt: 0,
        proof: "true".into(),
        work: "test".into(),
        extra: vec![("custom".into(), "hello".into())],
    };
    let s = write_ingot(&ingot);
    assert!(s.contains(":custom hello"));
}

fn odd_unit() -> Ingot {
    Ingot {
        id: "x \"7\"".into(),
        status: Status::Molten,
        solo: false,
        grade: 255,
        skill: Skill::Api,
        heat: 12,
        max: 200,
        smelt: 2,
        proof: "grep -q \"a\\b\" f.txt )".into(),
        work: "ends with a backslash \\".into(),
        extra: vec![
            ("note".into(), "two words".into()),
            ("empty".into(), "".into()),
            ("tag".into(), "v1".into()),
            ("paren".into(), "a)b".into()),
        ],
    }
}

#[test]
fn round_trip_keeps_every_field() {
    let u = odd_unit();
    let back = parse_ingot(&write_ingot(&u)).unwrap();
    assert_eq!(back.id, u.id);
    assert_eq!(back.status, u.status);
    assert_eq!(back.solo, u.solo);
    assert_eq!(back.grade, u.grade);
    assert_eq!(back.skill, u.skill);
    assert_eq!(back.heat, u.heat);
    assert_eq!(back.max, u.max);
    assert_eq!(back.smelt, u.smelt);
    assert_eq!(back.proof, u.proof);
    assert_eq!(back.work, u.work);
    assert_eq!(back.extra, u.extra);
}

#[test]
fn write_escapes_quotes_and_quotes_odd_extras() {
    let s = write_ingot(&odd_unit());
    assert!(s.contains(":id \"x \\\"7\\\"\""));
    assert!(s.contains(":note \"two words\""));
    assert!(s.contains(":empty \"\""));
    assert!(s.contains(":tag v1"));
    assert!(s.contains(":grade 255 "));
}

#[test]
fn parse_defaults_when_fields_absent() {
    let u = parse_ingot("(unit :id k)").unwrap();
    assert_eq!(u.id, "k");
    assert_eq!(u.status, Status::Ore);
    assert!(u.solo);
    assert_eq!(u.grade, 1);
    assert_eq!(u.skill, Skill::Default);
    assert_eq!(u.heat, 0);
    assert_eq!(u.max, 5);
    assert_eq!(u.smelt, 0);
    assert_eq!(u.proof, "true");
    assert_eq!(u.work, "");
    assert!(u.extra.is_empty());
}

#[test]
fn parse_rejects_missing_id_and_bad_status() {
    assert!(parse_ingot("(unit :status pending :description \"w\")").is_none());
    assert!(parse_ingot("(unit :id \"a\" :status boiling)").is_none());
}

#[test]
fn parse_bad_number_falls_back_to_default() {
    let u = parse_ingot("(unit :id a :grade 300 :attempt_limit x :attempt +3 :escalation -1)").unwrap();
    assert_eq!(u.grade, 1);
    assert_eq!(u.max, 5);
    assert_eq!(u.heat, 3);
    assert_eq!(u.smelt, 0);
}

#[test]
fn parse_trims_and_skill_synonyms() {
    let u = parse_ingot("   (unit :id a :skill frontend)  ").unwrap();
    assert_eq!(u.skill, Skill::Web);
    assert_eq!(Skill::parse("html"), Skill::Web);
    assert_eq!(Skill::parse("api"), Skill::Api);
    assert_eq!(Skill::parse("cli"), Skill::Cli);
    assert_eq!(Skill::parse("rust"), Skill::Default);
}

#[test]
fn status_words_round_trip() {
    for s in [Status::Ore, Status::Molten, Status::Forged, Status::Cracked] {
        assert_eq!(Status::parse(s.as_str()), Some(s));
    }
    assert_eq!(Status::Molten.as_str(), "in_progress");
    assert_eq!(Status::parse("hot"), None);
    assert_eq!(Skill::Default.as_str(), "default");
}

#[test]
fn parse_crucible_skips_prose_and_bad_records() {
    let text = "Here you go:\r\n(unit :id a :description \"A\")\r\n(unit :description \"no id\")\nthanks\n(unit :id b)";
    let us = parse_crucible(text);
    assert_eq!(us.len(), 2);
    assert_eq!(us[0].id, "a");
    assert_eq!(us[0].work, "A");
    assert_eq!(us[1].id, "b");
}

#[test]
fn parse_fields_reads_bare_quoted_and_escaped() {
    let fs = slag::parser::parse_fields(":a 1 :b \"x \\\" y\" :c");
    assert_eq!(
        fs,
        vec![
            ("a".to_string(), "1".to_string()),
            ("b".to_string(), "x \" y".to_string()),
            ("c".to_string(), "".to_string())
        ]
    );
}

#[test]
fn unit_flags() {
    let mut u = parse_ingot("(unit :id a :grade 3 :skill ui)").unwrap();
    assert!(u.is_complex());
    assert!(u.is_web());
    u.grade = 2;
    u.skill = Skill::Cli;
    assert!(!u.is_complex());
    assert!(!u.is_web());
    let d = u.duplicate();
    assert_eq!(d.id, u.id);
    assert_eq!(d.grade, 2);
}
