//! Batch analysis: classifies why failed units failed, from their attempt
//! logs, and decides per unit whether to retry, run it alone, regenerate it
//! or give up on it.

use vstd::prelude::*;
use crate::crucible::{Crucible, CrucibleView, has_id, requeued, smelt_after, stamped, string_views, with_status};
use crate::resmelt::{fresh, freshen};
use crate::parser::{ingot_views, ingots_of_text, parse_crucible};
use crate::sexp::{Ingot, IngotView, Status};
use crate::text::{
    chars_of, contains, has_infix, has_prefix, lines, slice_of, split_lines, split_words,
    starts_with, string_of, trim, trim_bounds, views, words,
};

verus! {

/// Why a unit failed.
#[derive(Debug, Clone)]
pub enum FailurePattern {
    /// A file or directory was missing: the unit depends on other work.
    MissingDependency { file: String },
    /// The agent's reply had no `COMMAND:` line.
    ProtocolFailure,
    /// The proof did not accept the work.
    ProofMismatch,
    Unknown,
}

pub enum PatternView {
    MissingDependency(Seq<char>),
    ProtocolFailure,
    ProofMismatch,
    Unknown,
}

pub open spec fn pattern_view(p: FailurePattern) -> PatternView {
    match p {
        FailurePattern::MissingDependency { file } => PatternView::MissingDependency(file@),
        FailurePattern::ProtocolFailure => PatternView::ProtocolFailure,
        FailurePattern::ProofMismatch => PatternView::ProofMismatch,
        FailurePattern::Unknown => PatternView::Unknown,
    }
}

/// What to do with a failed unit.
#[derive(Debug, Clone, Copy, PartialEq, Eq, Structural)]
pub enum AnalysisAction {
    /// Queue it again.
    Retry,
    /// Queue it again, to run alone.
    MakeSequential,
    /// Have the agent write new units for it.
    Regenerate,
    /// Leave it failed.
    Skip,
}

/// The analysis of one failed unit.
#[derive(Debug)]
pub struct CrackedAnalysis {
    pub id: String,
    pub pattern: FailurePattern,
    pub recommendation: AnalysisAction,
}

pub open spec fn any_of(s: Seq<char>, a: Seq<char>, b: Seq<char>) -> bool {
    contains(s, a) || contains(s, b)
}

pub open spec fn says_missing(s: Seq<char>) -> bool {
    contains(s, "No such file or directory"@) || contains(s, "file not found"@) || contains(
        s,
        "does not exist"@,
    ) || contains(s, "ENOENT"@) || contains(s, "cannot open"@)
}

pub open spec fn says_parse_error(s: Seq<char>) -> bool {
    contains(s, "parse error"@) || contains(s, "invalid JSON"@) || contains(s, "jq:"@) || contains(
        s,
        "SyntaxError"@,
    )
}

pub open spec fn says_protocol(s: Seq<char>) -> bool {
    contains(s, "NO COMMAND:"@) || contains(s, "missing \"COMMAND:\""@)
}

pub open spec fn says_proof_failed(s: Seq<char>) -> bool {
    contains(s, "proof failed"@) || contains(s, "non-zero exit"@)
}

pub open spec fn last_colon(s: Seq<char>) -> int
    decreases s.len(),
{
    if s.len() == 0 {
        -1
    } else if s.last() == ':' {
        s.len() - 1
    } else {
        last_colon(s.drop_last())
    }
}

/// The file named on the first line that reports it: after the last colon
/// of a "No such file" line, or the third word of a `test -f`/`test -d` line.
pub open spec fn missing_in_lines(ls: Seq<Seq<char>>) -> Option<Seq<char>>
    decreases ls.len(),
{
    if ls.len() == 0 {
        None
    } else {
        let l = ls[0];
        if contains(l, "No such file"@) && last_colon(l) >= 0 {
            Some(trim(l.subrange(last_colon(l) + 1, l.len() as int)))
        } else if (contains(l, "test -f"@) || contains(l, "test -d"@)) && words(l).len() >= 3 {
            Some(words(l)[2])
        } else {
            missing_in_lines(ls.drop_first())
        }
    }
}

pub open spec fn flag_word(w: Seq<char>) -> bool {
    w == "-f"@ || w == "-d"@ || w == "."@ || w == "-e"@
}

pub open spec fn plain_arg(w: Seq<char>) -> bool {
    !starts_with(w, "-"@) && !starts_with(w, "|"@)
}

/// The file a proof command names, scanning its words from `i`: the word
/// after a file flag, or a last word that is a path.
pub open spec fn file_in_words(ws: Seq<Seq<char>>, i: int) -> Option<Seq<char>>
    decreases ws.len() - i,
{
    if i < 0 || i >= ws.len() {
        None
    } else if flag_word(ws[i]) && i + 1 < ws.len() && plain_arg(ws[i + 1]) {
        Some(ws[i + 1])
    } else if i == ws.len() - 1 && plain_arg(ws[i]) && contains(ws[i], "/"@) {
        Some(ws[i])
    } else {
        file_in_words(ws, i + 1)
    }
}

pub open spec fn file_of_proof(proof: Seq<char>) -> Option<Seq<char>> {
    file_in_words(words(proof), 0)
}

pub open spec fn or_unknown(o: Option<Seq<char>>) -> Seq<char> {
    match o {
        Some(f) => f,
        None => "unknown"@,
    }
}

/// What one log says, if anything; checks are made in this order.
pub open spec fn log_pattern(log: Seq<char>) -> Option<PatternView> {
    if says_missing(log) {
        Some(PatternView::MissingDependency(or_unknown(missing_in_lines(lines(log)))))
    } else if says_parse_error(log) {
        Some(PatternView::ProofMismatch)
    } else if says_protocol(log) {
        Some(PatternView::ProtocolFailure)
    } else if says_proof_failed(log) {
        Some(PatternView::ProofMismatch)
    } else {
        None
    }
}

/// What the first telling log says.
pub open spec fn logs_pattern(logs: Seq<Seq<char>>) -> Option<PatternView>
    decreases logs.len(),
{
    if logs.len() == 0 {
        None
    } else {
        match log_pattern(logs[0]) {
            Some(p) => Some(p),
            None => logs_pattern(logs.drop_first()),
        }
    }
}

/// A proof that reads a file suggests a hidden dependency of an independent unit.
pub open spec fn proof_reads_file(lowered: Seq<char>) -> bool {
    contains(lowered, "test -f"@) || contains(lowered, "test -d"@) || contains(lowered, "cat "@)
        || contains(lowered, "jq "@)
}

/// The failure pattern of a unit, from its logs and, failing those, from its
/// proof in lower case.
pub open spec fn failure_pattern(u: IngotView, logs: Seq<Seq<char>>, lowered: Seq<char>) -> PatternView {
    match logs_pattern(logs) {
        Some(p) => p,
        None => if u.solo && proof_reads_file(lowered) {
            PatternView::MissingDependency(or_unknown(file_of_proof(u.proof)))
        } else {
            PatternView::Unknown
        },
    }
}

/// Pattern and recovery tier decide the action.
pub open spec fn action_for(p: PatternView, u: IngotView) -> AnalysisAction {
    match p {
        PatternView::MissingDependency(_) => if u.solo {
            AnalysisAction::MakeSequential
        } else {
            AnalysisAction::Regenerate
        },
        PatternView::ProtocolFailure => if u.smelt >= 2 {
            AnalysisAction::Regenerate
        } else {
            AnalysisAction::Retry
        },
        PatternView::ProofMismatch => if u.smelt >= 1 {
            AnalysisAction::Regenerate
        } else {
            AnalysisAction::Retry
        },
        PatternView::Unknown => if u.smelt >= 3 {
            AnalysisAction::Skip
        } else if u.smelt >= 2 {
            AnalysisAction::Regenerate
        } else {
            AnalysisAction::Retry
        },
    }
}

/// The Unicode lower case of a text.
pub uninterp spec fn lower_of(s: Seq<char>) -> Seq<char>;

/// Relies on `str::to_lowercase`: Unicode lower case, which depends on the
/// characters alone.
#[verifier::external_body]
fn lowercase(s: &str) -> (r: String)
    ensures
        r@ == lower_of(s@),
{
    s.to_lowercase()
}

fn holds(s: &Vec<char>, lit: &str) -> (r: bool)
    ensures
        r == contains(s@, lit@),
{
    let p = chars_of(lit);
    has_infix(s, &p)
}

pub fn last_colon_of(v: &Vec<char>) -> (r: Option<usize>)
    ensures
        match r {
            Some(k) => k < v.len() && k == last_colon(v@),
            None => last_colon(v@) == -1,
        },
{
    let mut k = v.len();
    assert(v@.subrange(0, k as int) =~= v@);
    while k > 0
        invariant
            0 <= k <= v.len(),
            last_colon(v@) == last_colon(v@.subrange(0, k as int)),
        decreases k,
    {
        let ghost cur = v@.subrange(0, k as int);
        assert(cur.drop_last() =~= v@.subrange(0, k - 1));
        if v[k - 1] == ':' {
            return Some(k - 1);
        }
        k -= 1;
    }
    None
}

/// The missing file that an error output names, if any line names one.
pub fn extract_missing_file(content: &str) -> (r: Option<String>)
    ensures
        match r {
            Some(f) => missing_in_lines(lines(content@)) == Some(f@),
            None => missing_in_lines(lines(content@)) is None,
        },
{
    let v = chars_of(content);
    let ls = split_lines(&v);
    let ghost lv = views(ls@);
    assert(lv.subrange(0, lv.len() as int) =~= lv);
    let mut i: usize = 0;
    while i < ls.len()
        invariant
            0 <= i <= ls.len(),
            lv == views(ls@),
            lv == lines(v@),
            v@ == content@,
            missing_in_lines(lv) == missing_in_lines(lv.subrange(i as int, lv.len() as int)),
        decreases ls.len() - i,
    {
        let ghost rest = lv.subrange(i as int, lv.len() as int);
        assert(rest[0] == ls@[i as int]@);
        assert(rest.drop_first() =~= lv.subrange(i + 1, lv.len() as int));
        let line = &ls[i];
        if holds(line, "No such file") {
            match last_colon_of(line) {
                Some(k) => {
                    let (a, b) = trim_bounds(line, k + 1, line.len());
                    return Some(string_of(&slice_of(line, a, b)));
                },
                None => {},
            }
        }
        if holds(line, "test -f") || holds(line, "test -d") {
            let ws = split_words(line);
            if ws.len() >= 3 {
                assert(views(ws@)[2] == ws@[2]@);
                return Some(string_of(&ws[2]));
            }
        }
        i += 1;
    }
    None
}

fn is_flag_word(w: &Vec<char>) -> (r: bool)
    ensures
        r == flag_word(w@),
{
    crate::sexp::is_word(w, "-f") || crate::sexp::is_word(w, "-d") || crate::sexp::is_word(w, ".")
        || crate::sexp::is_word(w, "-e")
}

fn is_plain_arg(w: &Vec<char>) -> (r: bool)
    ensures
        r == plain_arg(w@),
{
    let dash = chars_of("-");
    let bar = chars_of("|");
    !has_prefix(w, &dash) && !has_prefix(w, &bar)
}

/// The file a proof command names, if it names one.
pub fn extract_file_from_proof(proof: &str) -> (r: Option<String>)
    ensures
        match r {
            Some(f) => file_of_proof(proof@) == Some(f@),
            None => file_of_proof(proof@) is None,
        },
{
    let v = chars_of(proof);
    let ws = split_words(&v);
    let ghost wv = views(ws@);
    let n = ws.len();
    let mut i: usize = 0;
    while i < n
        invariant
            0 <= i <= n,
            n == ws.len(),
            wv == views(ws@),
            wv == words(proof@),
            file_of_proof(proof@) == file_in_words(wv, i as int),
        decreases n - i,
    {
        assert(wv[i as int] == ws@[i as int]@);
        if is_flag_word(&ws[i]) && i + 1 < n {
            assert(wv[i + 1] == ws@[i + 1]@);
            if is_plain_arg(&ws[i + 1]) {
                return Some(string_of(&ws[i + 1]));
            }
        }
        if i == n - 1 && is_plain_arg(&ws[i]) && holds(&ws[i], "/") {
            return Some(string_of(&ws[i]));
        }
        i += 1;
    }
    None
}

fn log_pattern_of(log: &String) -> (r: Option<FailurePattern>)
    ensures
        match r {
            Some(p) => log_pattern(log@) == Some(pattern_view(p)),
            None => log_pattern(log@) is None,
        },
{
    let s = chars_of(log.as_str());
    if holds(&s, "No such file or directory") || holds(&s, "file not found") || holds(
        &s,
        "does not exist",
    ) || holds(&s, "ENOENT") || holds(&s, "cannot open") {
        let file = match extract_missing_file(log.as_str()) {
            Some(f) => f,
            None => "unknown".to_string(),
        };
        return Some(FailurePattern::MissingDependency { file });
    }
    if holds(&s, "parse error") || holds(&s, "invalid JSON") || holds(&s, "jq:") || holds(
        &s,
        "SyntaxError",
    ) {
        return Some(FailurePattern::ProofMismatch);
    }
    if holds(&s, "NO COMMAND:") || holds(&s, "missing \"COMMAND:\"") {
        return Some(FailurePattern::ProtocolFailure);
    }
    if holds(&s, "proof failed") || holds(&s, "non-zero exit") {
        return Some(FailurePattern::ProofMismatch);
    }
    None
}

/// Classifies a failed unit from its attempt logs and its proof in lower
/// case: the first log that tells decides; with none, an independent unit
/// whose proof reads a file is taken to miss a dependency.
pub fn classify_failure(ingot: &Ingot, logs: &Vec<String>, lowered_proof: &str) -> (r: FailurePattern)
    ensures
        pattern_view(r) == failure_pattern(ingot@, string_views(logs@), lowered_proof@),
{
    let ghost lv = string_views(logs@);
    assert(lv.subrange(0, lv.len() as int) =~= lv);
    let mut i: usize = 0;
    while i < logs.len()
        invariant
            0 <= i <= logs.len(),
            lv == string_views(logs@),
            logs_pattern(lv) == logs_pattern(lv.subrange(i as int, lv.len() as int)),
        decreases logs.len() - i,
    {
        let ghost rest = lv.subrange(i as int, lv.len() as int);
        assert(rest[0] == logs@[i as int]@);
        assert(rest.drop_first() =~= lv.subrange(i + 1, lv.len() as int));
        match log_pattern_of(&logs[i]) {
            Some(p) => {
                return p;
            },
            None => {},
        }
        i += 1;
    }
    let low = chars_of(lowered_proof);
    if ingot.solo && (holds(&low, "test -f") || holds(&low, "test -d") || holds(&low, "cat ")
        || holds(&low, "jq ")) {
        let file = match extract_file_from_proof(ingot.proof.as_str()) {
            Some(f) => f,
            None => "unknown".to_string(),
        };
        return FailurePattern::MissingDependency { file };
    }
    FailurePattern::Unknown
}

/// Classifies a failed unit from its attempt logs (see `classify_failure`).
pub fn detect_failure_pattern(ingot: &Ingot, logs: &Vec<String>) -> (r: FailurePattern)
    ensures
        pattern_view(r) == failure_pattern(ingot@, string_views(logs@), lower_of(ingot@.proof)),
{
    let lowered = lowercase(ingot.proof.as_str());
    classify_failure(ingot, logs, lowered.as_str())
}

/// The action for a failure pattern, given the unit's recovery tier.
pub fn recommend_action(pattern: &FailurePattern, ingot: &Ingot) -> (r: AnalysisAction)
    ensures
        r == action_for(pattern_view(*pattern), ingot@),
{
    match pattern {
        FailurePattern::MissingDependency { .. } => if ingot.solo {
            AnalysisAction::MakeSequential
        } else {
            AnalysisAction::Regenerate
        },
        FailurePattern::ProtocolFailure => if ingot.smelt >= 2 {
            AnalysisAction::Regenerate
        } else {
            AnalysisAction::Retry
        },
        FailurePattern::ProofMismatch => if ingot.smelt >= 1 {
            AnalysisAction::Regenerate
        } else {
            AnalysisAction::Retry
        },
        FailurePattern::Unknown => if ingot.smelt >= 3 {
            AnalysisAction::Skip
        } else if ingot.smelt >= 2 {
            AnalysisAction::Regenerate
        } else {
            AnalysisAction::Retry
        },
    }
}

pub open spec fn cracked_id_list(us: Seq<IngotView>) -> Seq<Seq<char>>
    decreases us.len(),
{
    if us.len() == 0 {
        seq![]
    } else {
        let r = cracked_id_list(us.drop_last());
        if us.last().status == Status::Cracked {
            r.push(us.last().id)
        } else {
            r
        }
    }
}

/// The ids of the failed units, in ledger order.
pub fn cracked_ids(crucible: &Crucible) -> (r: Vec<String>)
    ensures
        string_views(r@) == cracked_id_list(crucible@.ingots),
{
    let ghost us = crucible@.ingots;
    let mut r: Vec<String> = Vec::new();
    let mut i: usize = 0;
    while i < crucible.ingots.len()
        invariant
            0 <= i <= crucible.ingots.len(),
            us == crucible@.ingots,
            string_views(r@) == cracked_id_list(us.subrange(0, i as int)),
        decreases crucible.ingots.len() - i,
    {
        let ghost nxt = us.subrange(0, i + 1);
        assert(nxt.drop_last() =~= us.subrange(0, i as int));
        assert(nxt.last() == crucible.ingots@[i as int]@);
        if crucible.ingots[i].status == Status::Cracked {
            let id = crucible.ingots[i].id.clone();
            let ghost before = r@;
            r.push(id);
            assert(string_views(r@) =~= string_views(before).push(id@));
        }
        i += 1;
    }
    assert(us.subrange(0, crucible.ingots.len() as int) =~= us);
    r
}

/// Whether any analysis asks for regeneration.
pub fn needs_regenerate(analyses: &Vec<CrackedAnalysis>) -> (r: bool)
    ensures
        r == exists|i: int|
            0 <= i < analyses.len() && (#[trigger] analyses@[i]).recommendation
                == AnalysisAction::Regenerate,
{
    let mut i: usize = 0;
    while i < analyses.len()
        invariant
            0 <= i <= analyses.len(),
            forall|j: int|
                0 <= j < i ==> (#[trigger] analyses@[j]).recommendation
                    != AnalysisAction::Regenerate,
        decreases analyses.len() - i,
    {
        if analyses[i].recommendation == AnalysisAction::Regenerate {
            return true;
        }
        i += 1;
    }
    false
}

/// The ids of the analyses that ask for regeneration, in order.
pub open spec fn regenerate_list(v: Seq<CrackedAnalysis>) -> Seq<Seq<char>>
    decreases v.len(),
{
    if v.len() == 0 {
        seq![]
    } else {
        let r = regenerate_list(v.drop_last());
        if v.last().recommendation == AnalysisAction::Regenerate {
            r.push(v.last().id@)
        } else {
            r
        }
    }
}

/// The ids of the units to regenerate.
pub fn regenerate_ids(analyses: &Vec<CrackedAnalysis>) -> (r: Vec<String>)
    ensures
        string_views(r@) == regenerate_list(analyses@),
{
    let mut r: Vec<String> = Vec::new();
    let mut i: usize = 0;
    while i < analyses.len()
        invariant
            0 <= i <= analyses.len(),
            string_views(r@) == regenerate_list(analyses@.subrange(0, i as int)),
        decreases analyses.len() - i,
    {
        let ghost nxt = analyses@.subrange(0, i + 1);
        assert(nxt.drop_last() =~= analyses@.subrange(0, i as int));
        if analyses[i].recommendation == AnalysisAction::Regenerate {
            let id = analyses[i].id.clone();
            let ghost before = r@;
            r.push(id);
            assert(string_views(r@) =~= string_views(before).push(id@));
        }
        i += 1;
    }
    assert(analyses@.subrange(0, analyses.len() as int) =~= analyses@);
    r
}

/// What an action does to a failed unit: Retry queues it again,
/// MakeSequential queues it again to run alone; the recovery tier is kept.
pub open spec fn acted(u: IngotView, a: AnalysisAction) -> IngotView {
    match a {
        AnalysisAction::Retry => requeued(u, false),
        AnalysisAction::MakeSequential => requeued(u, true),
        _ => u,
    }
}

pub open spec fn act_on(us: Seq<IngotView>, id: Seq<char>, a: AnalysisAction) -> Seq<IngotView> {
    match crate::crucible::index_of(us, id) {
        Some(i) => us.update(i, acted(us[i], a)),
        None => us,
    }
}

pub open spec fn act_all(us: Seq<IngotView>, plan: Seq<(Seq<char>, AnalysisAction)>) -> Seq<IngotView>
    decreases plan.len(),
{
    if plan.len() == 0 {
        us
    } else {
        let prev = act_all(us, plan.drop_last());
        act_on(prev, plan.last().0, plan.last().1)
    }
}

pub open spec fn plan_of(v: Seq<CrackedAnalysis>) -> Seq<(Seq<char>, AnalysisAction)> {
    v.map_values(|a: CrackedAnalysis| (a.id@, a.recommendation))
}

/// Applies each analysis's action, in order, to the first unit with its id.
pub fn apply_analyses(crucible: &mut Crucible, analyses: &Vec<CrackedAnalysis>)
    ensures
        final(crucible)@.path == old(crucible)@.path,
        final(crucible)@.header == old(crucible)@.header,
        final(crucible)@.ingots == act_all(old(crucible)@.ingots, plan_of(analyses@)),
{
    let ghost plan = plan_of(analyses@);
    let mut k: usize = 0;
    while k < analyses.len()
        invariant
            0 <= k <= analyses.len(),
            plan == plan_of(analyses@),
            crucible@.path == old(crucible)@.path,
            crucible@.header == old(crucible)@.header,
            crucible@.ingots == act_all(old(crucible)@.ingots, plan.subrange(0, k as int)),
        decreases analyses.len() - k,
    {
        let ghost nxt = plan.subrange(0, k + 1);
        assert(nxt.drop_last() =~= plan.subrange(0, k as int));
        assert(nxt.last() == (analyses@[k as int].id@, analyses@[k as int].recommendation));
        let a = &analyses[k];
        match crucible.position(a.id.as_str()) {
            Some(i) => {
                proof {
                    crucible.lemma_position_spec(a.id@, i as int);
                }
                match a.recommendation {
                    AnalysisAction::Retry => crucible.requeue_at(i, false),
                    AnalysisAction::MakeSequential => crucible.requeue_at(i, true),
                    _ => {},
                }
            },
            None => {
                proof {
                    crucible.lemma_position_spec_none(a.id@);
                }
            },
        }
        k += 1;
    }
    assert(plan.subrange(0, analyses.len() as int) =~= plan);
}

/// Queues the listed failed units again, each at the first unit with its id,
/// with no attempts consumed and its recovery tier kept.
pub fn force_retry(crucible: &mut Crucible, ids: &Vec<String>)
    ensures
        final(crucible)@.path == old(crucible)@.path,
        final(crucible)@.header == old(crucible)@.header,
        final(crucible)@.ingots == act_all(
            old(crucible)@.ingots,
            string_views(ids@).map_values(|id: Seq<char>| (id, AnalysisAction::Retry)),
        ),
{
    let ghost plan = string_views(ids@).map_values(|id: Seq<char>| (id, AnalysisAction::Retry));
    let mut k: usize = 0;
    while k < ids.len()
        invariant
            0 <= k <= ids.len(),
            plan == string_views(ids@).map_values(|id: Seq<char>| (id, AnalysisAction::Retry)),
            crucible@.path == old(crucible)@.path,
            crucible@.header == old(crucible)@.header,
            crucible@.ingots == act_all(old(crucible)@.ingots, plan.subrange(0, k as int)),
        decreases ids.len() - k,
    {
        let ghost nxt = plan.subrange(0, k + 1);
        assert(nxt.drop_last() =~= plan.subrange(0, k as int));
        assert(nxt.last() == (ids@[k as int]@, AnalysisAction::Retry));
        match crucible.position(ids[k].as_str()) {
            Some(i) => {
                proof {
                    crucible.lemma_position_spec(ids@[k as int]@, i as int);
                }
                crucible.requeue_at(i, false);
            },
            None => {
                proof {
                    crucible.lemma_position_spec_none(ids@[k as int]@);
                }
            },
        }
        k += 1;
    }
    assert(plan.subrange(0, ids.len() as int) =~= plan);
}

/// The units whose ids are not listed, in order.
pub open spec fn kept(us: Seq<IngotView>, ids: Seq<Seq<char>>) -> Seq<IngotView>
    decreases us.len(),
{
    if us.len() == 0 {
        seq![]
    } else {
        let r = kept(us.drop_last(), ids);
        if ids.contains(us.last().id) {
            r
        } else {
            r.push(us.last())
        }
    }
}

/// The highest recovery tier among the units whose ids are listed.
pub open spec fn top_smelt(us: Seq<IngotView>, ids: Seq<Seq<char>>) -> u8
    decreases us.len(),
{
    if us.len() == 0 {
        0
    } else {
        let m = top_smelt(us.drop_last(), ids);
        if ids.contains(us.last().id) && us.last().smelt > m {
            us.last().smelt
        } else {
            m
        }
    }
}

/// The ledger after regeneration: the listed units give way to the reply's
/// units, appended fresh and one tier above the highest tier they replace.
/// A reply with no unit record leaves them in place, queued again to run
/// alone.
pub open spec fn regenerated(us: Seq<IngotView>, ids: Seq<Seq<char>>, reply: Seq<char>) -> Seq<IngotView> {
    let new = ingots_of_text(reply);
    if new.len() == 0 {
        act_all(us, ids.map_values(|id: Seq<char>| (id, AnalysisAction::MakeSequential)))
    } else {
        kept(us, ids) + stamped(fresh(new), smelt_after(top_smelt(us, ids)))
    }
}

fn listed(ids: &Vec<String>, id: &String) -> (r: bool)
    ensures
        r == string_views(ids@).contains(id@),
{
    let mut i: usize = 0;
    while i < ids.len()
        invariant
            0 <= i <= ids.len(),
            forall|j: int| 0 <= j < i ==> ids@[j]@ != id@,
        decreases ids.len() - i,
    {
        if ids[i] == *id {
            assert(string_views(ids@)[i as int] == id@);
            return true;
        }
        i += 1;
    }
    assert forall|j: int| 0 <= j < string_views(ids@).len() implies string_views(ids@)[j] != id@ by {
        assert(string_views(ids@)[j] == ids@[j]@);
    }
    false
}

/// Replaces the listed failed units by the agent's regenerated units (see
/// `regenerated`); says whether the reply held any.
pub fn regenerate_cracked(crucible: &mut Crucible, cracked_ids: &Vec<String>, reply: &str) -> (r: bool)
    ensures
        final(crucible)@.path == old(crucible)@.path,
        final(crucible)@.header == old(crucible)@.header,
        r == (ingots_of_text(reply@).len() > 0),
        final(crucible)@.ingots == regenerated(old(crucible)@.ingots, string_views(cracked_ids@), reply@),
{
    let ghost us = crucible@.ingots;
    let ghost ids = string_views(cracked_ids@);
    let new = parse_crucible(reply);
    if new.len() == 0 {
        let ghost plan = ids.map_values(|id: Seq<char>| (id, AnalysisAction::MakeSequential));
        let mut k: usize = 0;
        while k < cracked_ids.len()
            invariant
                0 <= k <= cracked_ids.len(),
                ids == string_views(cracked_ids@),
                plan == ids.map_values(|id: Seq<char>| (id, AnalysisAction::MakeSequential)),
                crucible@.path == old(crucible)@.path,
                crucible@.header == old(crucible)@.header,
                crucible@.ingots == act_all(us, plan.subrange(0, k as int)),
                us == old(crucible)@.ingots,
            decreases cracked_ids.len() - k,
        {
            let ghost nxt = plan.subrange(0, k + 1);
            assert(nxt.drop_last() =~= plan.subrange(0, k as int));
            assert(nxt.last() == (cracked_ids@[k as int]@, AnalysisAction::MakeSequential));
            match crucible.position(cracked_ids[k].as_str()) {
                Some(i) => {
                    proof {
                        crucible.lemma_position_spec(cracked_ids@[k as int]@, i as int);
                    }
                    crucible.requeue_at(i, true);
                },
                None => {
                    proof {
                        crucible.lemma_position_spec_none(cracked_ids@[k as int]@);
                    }
                },
            }
            k += 1;
        }
        assert(plan.subrange(0, cracked_ids.len() as int) =~= plan);
        return false;
    }
    let mut keep: Vec<Ingot> = Vec::new();
    let mut top: u8 = 0;
    let mut i: usize = 0;
    while i < crucible.ingots.len()
        invariant
            0 <= i <= crucible.ingots.len(),
            us == crucible@.ingots,
            ids == string_views(cracked_ids@),
            ingot_views(keep@) == kept(us.subrange(0, i as int), ids),
            top == top_smelt(us.subrange(0, i as int), ids),
        decreases crucible.ingots.len() - i,
    {
        let ghost nxt = us.subrange(0, i + 1);
        assert(nxt.drop_last() =~= us.subrange(0, i as int));
        assert(nxt.last() == crucible.ingots@[i as int]@);
        if listed(cracked_ids, &crucible.ingots[i].id) {
            if crucible.ingots[i].smelt > top {
                top = crucible.ingots[i].smelt;
            }
        } else {
            let u = crucible.ingots[i].duplicate();
            let ghost before = ingot_views(keep@);
            keep.push(u);
            assert(ingot_views(keep@) =~= before.push(u@));
        }
        i += 1;
    }
    assert(us.subrange(0, us.len() as int) =~= us);
    let smelt: u8 = if top < 255 {
        top + 1
    } else {
        top
    };
    let ghost added = stamped(fresh(ingot_views(new@)), smelt);
    let fresh_units = freshen(&new);
    let mut j: usize = 0;
    let ghost base = ingot_views(keep@);
    while j < fresh_units.len()
        invariant
            0 <= j <= fresh_units.len(),
            ingot_views(fresh_units@) == fresh(ingot_views(new@)),
            added == stamped(fresh(ingot_views(new@)), smelt),
            ingot_views(keep@) == base + added.subrange(0, j as int),
        decreases fresh_units.len() - j,
    {
        let mut u = fresh_units[j].duplicate();
        u.smelt = smelt;
        assert(ingot_views(fresh_units@)[j as int] == fresh_units@[j as int]@);
        assert(u@ == added[j as int]);
        let ghost before = ingot_views(keep@);
        keep.push(u);
        assert(ingot_views(keep@) =~= before.push(u@));
        assert(base + added.subrange(0, j + 1) =~= (base + added.subrange(0, j as int)).push(added[j as int]));
        j += 1;
    }
    assert(added.subrange(0, fresh_units.len() as int) =~= added);
    crucible.ingots = keep;
    true
}

} // verus!
