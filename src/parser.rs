//! Reading unit records: `(unit :key value :key "quoted value" ...)`.
//!
//! Fields are lexed by a character-at-a-time state machine, stated in spec
//! (`lex_step`) and run in exec (`lex_fields`) step for step.

use vstd::prelude::*;
use crate::sexp::{
    Ingot, IngotView, Skill, Status, pair_views, status_of_word, skill_of_word, is_word,
};
use crate::text::{
    chars_of, is_whitespace, is_ws, slice_of, string_of, trim, trim_bounds, starts_with,
    ends_with, lines, split_lines, views, has_prefix, has_suffix,
};

verus! {

/// Lexer state: between fields, in a key (begun at an index), after a key,
/// in a bare value (begun at an index), in a quoted value, or just after a
/// backslash in a quoted value.
pub enum Lex {
    Gap,
    Key(int),
    Sep(Seq<char>),
    Bare(Seq<char>, int),
    Quoted(Seq<char>, Seq<char>),
    Escape(Seq<char>, Seq<char>),
}

/// One step of the lexer on `s[i]`: the next state and the fields completed.
pub open spec fn lex_step(s: Seq<char>, i: int, st: Lex) -> (Lex, Seq<(Seq<char>, Seq<char>)>) {
    let c = s[i];
    match st {
        Lex::Gap => if c == ':' {
            (Lex::Key(i + 1), seq![])
        } else {
            (Lex::Gap, seq![])
        },
        Lex::Key(b) => if is_ws(c) {
            (Lex::Sep(s.subrange(b, i)), seq![])
        } else {
            (Lex::Key(b), seq![])
        },
        Lex::Sep(k) => if is_ws(c) {
            (Lex::Sep(k), seq![])
        } else if c == '"' {
            (Lex::Quoted(k, seq![]), seq![])
        } else if c == ')' {
            (Lex::Gap, seq![(k, Seq::<char>::empty())])
        } else {
            (Lex::Bare(k, i), seq![])
        },
        Lex::Bare(k, b) => if is_ws(c) || c == ')' {
            (Lex::Gap, seq![(k, s.subrange(b, i))])
        } else {
            (Lex::Bare(k, b), seq![])
        },
        Lex::Quoted(k, v) => if c == '"' {
            (Lex::Gap, seq![(k, v)])
        } else if c == '\\' {
            (Lex::Escape(k, v), seq![])
        } else {
            (Lex::Quoted(k, v.push(c)), seq![])
        },
        Lex::Escape(k, v) => (Lex::Quoted(k, v.push(c)), seq![]),
    }
}

/// The field left open when the text ends.
pub open spec fn lex_finish(s: Seq<char>, st: Lex) -> Seq<(Seq<char>, Seq<char>)> {
    match st {
        Lex::Gap => seq![],
        Lex::Key(b) => seq![(s.subrange(b, s.len() as int), Seq::<char>::empty())],
        Lex::Sep(k) => seq![(k, Seq::<char>::empty())],
        Lex::Bare(k, b) => seq![(k, s.subrange(b, s.len() as int))],
        Lex::Quoted(k, v) => seq![(k, v)],
        Lex::Escape(k, v) => seq![(k, v.push('\\'))],
    }
}

pub open spec fn lex_from(s: Seq<char>, i: int, st: Lex) -> Seq<(Seq<char>, Seq<char>)>
    decreases s.len() - i,
{
    if i < 0 || i >= s.len() {
        lex_finish(s, st)
    } else {
        let (n, e) = lex_step(s, i, st);
        e + lex_from(s, i + 1, n)
    }
}

/// The `(key, value)` fields of a record's inner text, in order.
pub open spec fn fields_of(s: Seq<char>) -> Seq<(Seq<char>, Seq<char>)> {
    lex_from(s, 0, Lex::Gap)
}

/// The value of the first field named `key`.
pub open spec fn lookup(fs: Seq<(Seq<char>, Seq<char>)>, key: Seq<char>) -> Option<Seq<char>>
    decreases fs.len(),
{
    if fs.len() == 0 {
        None
    } else if fs[0].0 == key {
        Some(fs[0].1)
    } else {
        lookup(fs.drop_first(), key)
    }
}

pub open spec fn is_known(k: Seq<char>) -> bool {
    k == "id"@ || k == "status"@ || k == "independent"@ || k == "grade"@ || k == "skill"@ || k
        == "attempt"@ || k == "attempt_limit"@ || k == "escalation"@ || k == "proof"@ || k == "description"@
}

/// The fields whose names are not known ones, in order.
pub open spec fn unknown_fields(fs: Seq<(Seq<char>, Seq<char>)>) -> Seq<(Seq<char>, Seq<char>)>
    decreases fs.len(),
{
    if fs.len() == 0 {
        seq![]
    } else {
        let r = unknown_fields(fs.drop_last());
        if is_known(fs.last().0) {
            r
        } else {
            r.push(fs.last())
        }
    }
}

pub open spec fn is_digit(c: char) -> bool {
    '0' <= c && c <= '9'
}

pub open spec fn dec_val(d: Seq<char>) -> nat
    decreases d.len(),
{
    if d.len() == 0 {
        0
    } else {
        dec_val(d.drop_last()) * 10 + (d.last() as nat - '0' as nat) as nat
    }
}

/// What `u8::from_str` accepts: decimal digits after an optional `+`, at
/// most 255.
pub open spec fn digits_part(s: Seq<char>) -> Seq<char> {
    if s.len() > 1 && s[0] == '+' {
        s.drop_first()
    } else {
        s
    }
}

pub open spec fn all_digits(d: Seq<char>) -> bool {
    forall|i: int| 0 <= i < d.len() ==> is_digit(#[trigger] d[i])
}

pub open spec fn u8_of(s: Seq<char>) -> Option<u8> {
    let d = digits_part(s);
    if d.len() == 0 || !all_digits(d) || dec_val(d) > 255 {
        None
    } else {
        Some(dec_val(d) as u8)
    }
}

pub open spec fn text_or(o: Option<Seq<char>>, d: Seq<char>) -> Seq<char> {
    match o {
        Some(v) => v,
        None => d,
    }
}

pub open spec fn number_or(o: Option<Seq<char>>, d: u8) -> u8 {
    match o {
        Some(v) => match u8_of(v) {
            Some(n) => n,
            None => d,
        },
        None => d,
    }
}

/// The unit that a list of fields describes, with the documented defaults;
/// none without an `id` or with an unknown status.
pub open spec fn ingot_of_fields(fs: Seq<(Seq<char>, Seq<char>)>) -> Option<IngotView> {
    match lookup(fs, "id"@) {
        None => None,
        Some(id) => match status_of_word(text_or(lookup(fs, "status"@), "pending"@)) {
            None => None,
            Some(status) => Some(
                IngotView {
                    id,
                    status,
                    solo: match lookup(fs, "independent"@) {
                        Some(v) => v == "t"@,
                        None => true,
                    },
                    grade: number_or(lookup(fs, "grade"@), 1),
                    skill: skill_of_word(text_or(lookup(fs, "skill"@), "default"@)),
                    heat: number_or(lookup(fs, "attempt"@), 0),
                    max: number_or(lookup(fs, "attempt_limit"@), 5),
                    smelt: number_or(lookup(fs, "escalation"@), 0),
                    proof: text_or(lookup(fs, "proof"@), "true"@),
                    work: text_or(lookup(fs, "description"@), seq![]),
                    extra: unknown_fields(fs),
                },
            ),
        },
    }
}

/// The text between `(unit ` and a final `)`.
pub open spec fn record_inner(t: Seq<char>) -> Seq<char> {
    t.subrange(
        6,
        t.len() - if ends_with(t, ")"@) {
            1int
        } else {
            0int
        },
    )
}

/// The unit on a line, if the trimmed line is a unit record.
pub open spec fn ingot_of_line(line: Seq<char>) -> Option<IngotView> {
    let t = trim(line);
    if !starts_with(t, "(unit "@) {
        None
    } else {
        ingot_of_fields(fields_of(record_inner(t)))
    }
}

/// The units of the record lines among `ls`, in order; other lines skipped.
pub open spec fn ingots_of_lines(ls: Seq<Seq<char>>) -> Seq<IngotView>
    decreases ls.len(),
{
    if ls.len() == 0 {
        seq![]
    } else {
        let r = ingots_of_lines(ls.drop_last());
        match ingot_of_line(ls.last()) {
            Some(u) => r.push(u),
            None => r,
        }
    }
}

/// The units recorded in a text, line by line.
pub open spec fn ingots_of_text(s: Seq<char>) -> Seq<IngotView> {
    ingots_of_lines(lines(s))
}

pub open spec fn ingot_views(v: Seq<Ingot>) -> Seq<IngotView> {
    v.map_values(|i: Ingot| i@)
}

pub open spec fn opt_view(o: Option<Ingot>) -> Option<IngotView> {
    match o {
        Some(i) => Some(i@),
        None => None,
    }
}

pub open spec fn field_views(v: Seq<(Vec<char>, Vec<char>)>) -> Seq<(Seq<char>, Seq<char>)> {
    v.map_values(|p: (Vec<char>, Vec<char>)| (p.0@, p.1@))
}

enum LexState {
    Gap,
    Key(usize),
    Sep(Vec<char>),
    Bare(Vec<char>, usize),
    Quoted(Vec<char>, Vec<char>),
    Escape(Vec<char>, Vec<char>),
}

impl LexState {
    spec fn lex(&self) -> Lex {
        match self {
            LexState::Gap => Lex::Gap,
            LexState::Key(b) => Lex::Key(*b as int),
            LexState::Sep(k) => Lex::Sep(k@),
            LexState::Bare(k, b) => Lex::Bare(k@, *b as int),
            LexState::Quoted(k, v) => Lex::Quoted(k@, v@),
            LexState::Escape(k, v) => Lex::Escape(k@, v@),
        }
    }

    spec fn starts_by(&self, i: int) -> bool {
        match self {
            LexState::Key(b) => *b <= i,
            LexState::Bare(_, b) => *b <= i,
            _ => true,
        }
    }
}

proof fn lemma_field_views_push(v: Seq<(Vec<char>, Vec<char>)>, p: (Vec<char>, Vec<char>))
    ensures
        field_views(v.push(p)) == field_views(v) + seq![(p.0@, p.1@)],
{
    assert(field_views(v.push(p)) =~= field_views(v) + seq![(p.0@, p.1@)]);
}

/// Lexes a record's inner text into its fields.
fn lex_fields(s: &Vec<char>) -> (r: Vec<(Vec<char>, Vec<char>)>)
    ensures
        field_views(r@) == fields_of(s@),
{
    let mut out: Vec<(Vec<char>, Vec<char>)> = Vec::new();
    let mut st = LexState::Gap;
    let mut i: usize = 0;
    while i < s.len()
        invariant
            0 <= i <= s.len(),
            st.starts_by(i as int),
            fields_of(s@) == field_views(out@) + lex_from(s@, i as int, st.lex()),
        decreases s.len() - i,
    {
        let c = s[i];
        let ghost old_out = out@;
        let ghost old_st = st.lex();
        let ghost step = lex_step(s@, i as int, old_st);
        st = match st {
            LexState::Gap => if c == ':' {
                LexState::Key(i + 1)
            } else {
                LexState::Gap
            },
            LexState::Key(b) => if is_whitespace(c) {
                LexState::Sep(slice_of(s, b, i))
            } else {
                LexState::Key(b)
            },
            LexState::Sep(k) => if is_whitespace(c) {
                LexState::Sep(k)
            } else if c == '"' {
                LexState::Quoted(k, Vec::new())
            } else if c == ')' {
                let e: Vec<char> = Vec::new();
                proof {
                    lemma_field_views_push(out@, (k, e));
                }
                out.push((k, e));
                LexState::Gap
            } else {
                LexState::Bare(k, i)
            },
            LexState::Bare(k, b) => if is_whitespace(c) || c == ')' {
                let v = slice_of(s, b, i);
                proof {
                    lemma_field_views_push(out@, (k, v));
                }
                out.push((k, v));
                LexState::Gap
            } else {
                LexState::Bare(k, b)
            },
            LexState::Quoted(k, v) => if c == '"' {
                proof {
                    lemma_field_views_push(out@, (k, v));
                }
                out.push((k, v));
                LexState::Gap
            } else if c == '\\' {
                LexState::Escape(k, v)
            } else {
                let mut v = v;
                v.push(c);
                LexState::Quoted(k, v)
            },
            LexState::Escape(k, v) => {
                let mut v = v;
                v.push(c);
                LexState::Quoted(k, v)
            },
        };
        assert(st.lex() == step.0);
        assert(field_views(out@) == field_views(old_out) + step.1);
        assert(lex_from(s@, i as int, old_st) == step.1 + lex_from(s@, i + 1, step.0));
        assert(field_views(old_out) + (step.1 + lex_from(s@, i + 1, step.0)) =~= (field_views(
            old_out,
        ) + step.1) + lex_from(s@, i + 1, step.0));
        i += 1;
    }
    let ghost old_out = out@;
    let ghost fin = lex_finish(s@, st.lex());
    match st {
        LexState::Gap => {},
        LexState::Key(b) => {
            let k = slice_of(s, b, s.len());
            let e: Vec<char> = Vec::new();
            proof {
                lemma_field_views_push(out@, (k, e));
            }
            out.push((k, e));
        },
        LexState::Sep(k) => {
            let e: Vec<char> = Vec::new();
            proof {
                lemma_field_views_push(out@, (k, e));
            }
            out.push((k, e));
        },
        LexState::Bare(k, b) => {
            let v = slice_of(s, b, s.len());
            proof {
                lemma_field_views_push(out@, (k, v));
            }
            out.push((k, v));
        },
        LexState::Quoted(k, v) => {
            proof {
                lemma_field_views_push(out@, (k, v));
            }
            out.push((k, v));
        },
        LexState::Escape(k, v) => {
            let mut v = v;
            v.push('\\');
            proof {
                lemma_field_views_push(out@, (k, v));
            }
            out.push((k, v));
        },
    }
    assert(field_views(out@) == field_views(old_out) + fin);
    out
}

/// The fields of a record's inner text, as string pairs.
pub fn parse_fields(s: &str) -> (r: Vec<(String, String)>)
    ensures
        pair_views(r@) == fields_of(s@),
{
    let v = chars_of(s);
    let fs = lex_fields(&v);
    let mut r: Vec<(String, String)> = Vec::new();
    let mut i: usize = 0;
    while i < fs.len()
        invariant
            0 <= i <= fs.len(),
            r.len() == i,
            forall|j: int|
                0 <= j < i ==> #[trigger] r@[j].0@ == fs@[j].0@ && r@[j].1@ == fs@[j].1@,
        decreases fs.len() - i,
    {
        let k = string_of(&fs[i].0);
        let val = string_of(&fs[i].1);
        r.push((k, val));
        i += 1;
    }
    assert forall|j: int| 0 <= j < fs.len() implies #[trigger] pair_views(r@)[j] == field_views(
        fs@,
    )[j] by {
        assert(r@[j].0@ == fs@[j].0@);
    }
    assert(pair_views(r@) =~= field_views(fs@));
    r
}

/// Reads a decimal `u8` as `u8::from_str` does.
pub fn parse_u8(v: &Vec<char>) -> (r: Option<u8>)
    ensures
        r == u8_of(v@),
{
    let start: usize = if v.len() > 1 && v[0] == '+' {
        1
    } else {
        0
    };
    let ghost d = v@.subrange(start as int, v.len() as int);
    assert(d =~= digits_part(v@));
    if start >= v.len() {
        return None;
    }
    let mut acc: u32 = 0;
    let mut over = false;
    let mut i = start;
    while i < v.len()
        invariant
            start <= i <= v.len(),
            d == v@.subrange(start as int, v.len() as int),
            d == digits_part(v@),
            forall|j: int| start <= j < i ==> is_digit(#[trigger] v@[j]),
            over ==> dec_val(v@.subrange(start as int, i as int)) > 255,
            !over ==> acc == dec_val(v@.subrange(start as int, i as int)) && acc <= 255,
        decreases v.len() - i,
    {
        let c = v[i];
        if !('0' <= c && c <= '9') {
            assert(d[i - start] == c);
            assert(!is_digit(d[i - start]));
            assert(!all_digits(d));
            return None;
        }
        let ghost pre = v@.subrange(start as int, i as int);
        let ghost nxt = v@.subrange(start as int, i + 1);
        assert(nxt.drop_last() =~= pre);
        assert(dec_val(nxt) == dec_val(pre) * 10 + (c as nat - '0' as nat) as nat);
        if !over {
            acc = acc * 10 + (c as u32 - '0' as u32);
            if acc > 255 {
                over = true;
            }
        }
        i += 1;
    }
    assert(v@.subrange(start as int, i as int) == d);
    assert forall|j: int| 0 <= j < d.len() implies is_digit(#[trigger] d[j]) by {
        assert(d[j] == v@[start + j]);
    }
    assert(all_digits(d));
    if over {
        None
    } else {
        Some(acc as u8)
    }
}

/// The index of the first field named `key`.
fn find_field(fs: &Vec<(Vec<char>, Vec<char>)>, key: &str) -> (r: Option<usize>)
    ensures
        match r {
            Some(i) => i < fs.len() && lookup(field_views(fs@), key@) == Some(fs@[i as int].1@),
            None => lookup(field_views(fs@), key@) is None,
        },
{
    let ghost all = field_views(fs@);
    assert(all.subrange(0, all.len() as int) =~= all);
    let mut i: usize = 0;
    while i < fs.len()
        invariant
            0 <= i <= fs.len(),
            all == field_views(fs@),
            lookup(all, key@) == lookup(all.subrange(i as int, all.len() as int), key@),
        decreases fs.len() - i,
    {
        let ghost rest = all.subrange(i as int, all.len() as int);
        assert(rest[0] == (fs@[i as int].0@, fs@[i as int].1@));
        if is_word(&fs[i].0, key) {
            return Some(i);
        }
        assert(rest.drop_first() =~= all.subrange(i + 1, all.len() as int));
        i += 1;
    }
    None
}

pub fn is_known_key(k: &Vec<char>) -> (r: bool)
    ensures
        r == is_known(k@),
{
    is_word(k, "id") || is_word(k, "status") || is_word(k, "independent") || is_word(k, "grade")
        || is_word(k, "skill") || is_word(k, "attempt") || is_word(k, "attempt_limit") || is_word(k, "escalation")
        || is_word(k, "proof") || is_word(k, "description")
}

fn text_field(fs: &Vec<(Vec<char>, Vec<char>)>, key: &str, dflt: &str) -> (r: String)
    ensures
        r@ == text_or(lookup(field_views(fs@), key@), dflt@),
{
    match find_field(fs, key) {
        Some(i) => string_of(&fs[i].1),
        None => dflt.to_string(),
    }
}

fn number_field(fs: &Vec<(Vec<char>, Vec<char>)>, key: &str, dflt: u8) -> (r: u8)
    ensures
        r == number_or(lookup(field_views(fs@), key@), dflt),
{
    match find_field(fs, key) {
        Some(i) => match parse_u8(&fs[i].1) {
            Some(n) => n,
            None => dflt,
        },
        None => dflt,
    }
}

fn unknown_of(fs: &Vec<(Vec<char>, Vec<char>)>) -> (r: Vec<(String, String)>)
    ensures
        pair_views(r@) == unknown_fields(field_views(fs@)),
{
    let ghost all = field_views(fs@);
    let mut r: Vec<(String, String)> = Vec::new();
    let mut i: usize = 0;
    while i < fs.len()
        invariant
            0 <= i <= fs.len(),
            all == field_views(fs@),
            pair_views(r@) == unknown_fields(all.subrange(0, i as int)),
        decreases fs.len() - i,
    {
        let ghost pre = all.subrange(0, i as int);
        let ghost nxt = all.subrange(0, i + 1);
        assert(nxt.drop_last() =~= pre);
        assert(nxt.last() == (fs@[i as int].0@, fs@[i as int].1@));
        if !is_known_key(&fs[i].0) {
            let k = string_of(&fs[i].0);
            let val = string_of(&fs[i].1);
            let ghost before = r@;
            r.push((k, val));
            assert(pair_views(r@) =~= pair_views(before).push((k@, val@)));
        }
        i += 1;
    }
    assert(all.subrange(0, fs.len() as int) =~= all);
    r
}

/// Parses one line as a unit record: `None` where the trimmed line does not
/// begin with `(unit `, has no `id`, or names an unknown status.
pub fn parse_ingot(line: &str) -> (r: Option<Ingot>)
    ensures
        opt_view(r) == ingot_of_line(line@),
{
    let v = chars_of(line);
    parse_ingot_chars(&v)
}

pub fn parse_ingot_chars(v: &Vec<char>) -> (r: Option<Ingot>)
    ensures
        opt_view(r) == ingot_of_line(v@),
{
    let (a, b) = trim_bounds(v, 0, v.len());
    assert(v@.subrange(0, v.len() as int) =~= v@);
    let t = slice_of(v, a, b);
    let head = chars_of("(unit ");
    if !has_prefix(&t, &head) {
        return None;
    }
    let close = chars_of(")");
    let ends = has_suffix(&t, &close);
    proof {
        reveal_strlit("(unit ");
        reveal_strlit(")");
        assert(t@.subrange(0, 6)[5] == t@[5]);
        assert(t@[5] == ' ');
        if ends {
            assert(t@.subrange(t@.len() - 1, t@.len() as int)[0] == t@[t@.len() - 1]);
            assert(t@[t@.len() - 1] == ')');
        }
    }
    let hi = if ends {
        t.len() - 1
    } else {
        t.len()
    };
    let inner = slice_of(&t, 6, hi);
    assert(inner@ == record_inner(t@));
    let fs = lex_fields(&inner);
    let ghost fv = field_views(fs@);
    let id = match find_field(&fs, "id") {
        Some(i) => string_of(&fs[i].1),
        None => {
            return None;
        },
    };
    let status_text = text_field(&fs, "status", "pending");
    let sv = chars_of(status_text.as_str());
    let status = match Status::parse_chars(&sv) {
        Some(st) => st,
        None => {
            return None;
        },
    };
    let solo = match find_field(&fs, "independent") {
        Some(i) => is_word(&fs[i].1, "t"),
        None => true,
    };
    let skill_text = text_field(&fs, "skill", "default");
    let kv = chars_of(skill_text.as_str());
    let skill = Skill::parse_chars(&kv);
    let r = Ingot {
        id,
        status,
        solo,
        grade: number_field(&fs, "grade", 1),
        skill,
        heat: number_field(&fs, "attempt", 0),
        max: number_field(&fs, "attempt_limit", 5),
        smelt: number_field(&fs, "escalation", 0),
        proof: text_field(&fs, "proof", "true"),
        work: text_field(&fs, "description", ""),
        extra: unknown_of(&fs),
    };
    proof {
        reveal_strlit("");
        assert(r@.work == text_or(lookup(fv, "description"@), seq![]));
    }
    Some(r)
}

/// Parses every unit record among the lines of `content`, in order; other
/// lines, and records that do not parse, are skipped.
pub fn parse_crucible(content: &str) -> (r: Vec<Ingot>)
    ensures
        ingot_views(r@) == ingots_of_text(content@),
{
    let v = chars_of(content);
    let ls = split_lines(&v);
    let ghost lv = views(ls@);
    let mut r: Vec<Ingot> = Vec::new();
    let mut i: usize = 0;
    while i < ls.len()
        invariant
            0 <= i <= ls.len(),
            lv == views(ls@),
            lv == lines(v@),
            ingot_views(r@) == ingots_of_lines(lv.subrange(0, i as int)),
        decreases ls.len() - i,
    {
        let ghost pre = lv.subrange(0, i as int);
        let ghost nxt = lv.subrange(0, i + 1);
        assert(nxt.drop_last() =~= pre);
        assert(nxt.last() == ls@[i as int]@);
        match parse_ingot_chars(&ls[i]) {
            Some(u) => {
                let ghost before = r@;
                r.push(u);
                assert(ingot_views(r@) =~= ingot_views(before).push(u@));
            },
            None => {},
        }
        i += 1;
    }
    assert(lv.subrange(0, ls.len() as int) =~= lv);
    r
}

} // verus!
