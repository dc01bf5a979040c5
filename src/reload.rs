//! Saving a ledger and loading it again.

use vstd::prelude::*;
use crate::crucible::{CrucibleView, header_of_lines, is_header_line, ledger_text, lines_text, records_text};
use crate::parser::{ingot_of_line, ingots_of_lines, ingots_of_text};
use crate::roundtrip::{extras_ok, key_ok, lemma_line, lemma_round_trip, lemma_dec_text_digits};
use crate::parser::{Lex, lex_from, lex_step, lex_finish, fields_of, lookup, unknown_fields, is_known, record_inner};
use crate::sexp::{status_word, skill_word};
use crate::writer::{escaped, escape_char, quoted, dec_text, flag_text, extra_text, typed_text, value_text};
use crate::sexp::IngotView;
use crate::text::{is_ws, lines, lines_acc, strip_cr, trim, trim_end, trim_start, starts_with};
use crate::writer::ingot_text;

verus! {

pub open spec fn no_nl(x: Seq<char>) -> bool {
    forall|i: int| 0 <= i < x.len() ==> x[i] != '\n'
}

pub open spec fn texts(us: Seq<IngotView>) -> Seq<Seq<char>> {
    us.map_values(|u: IngotView| ingot_text(u))
}

pub open spec fn stripped(ls: Seq<Seq<char>>) -> Seq<Seq<char>> {
    ls.map_values(|l: Seq<char>| strip_cr(l))
}

proof fn lemma_records_text(us: Seq<IngotView>)
    ensures
        records_text(us) == lines_text(texts(us)),
    decreases us.len(),
{
    if us.len() > 0 {
        lemma_records_text(us.drop_last());
        assert(texts(us).drop_last() =~= texts(us.drop_last()));
    }
}

proof fn lemma_lines_text_concat(a: Seq<Seq<char>>, b: Seq<Seq<char>>)
    ensures
        lines_text(a + b) == lines_text(a) + lines_text(b),
    decreases b.len(),
{
    if b.len() == 0 {
        assert(a + b =~= a);
        assert(lines_text(a) + Seq::<char>::empty() =~= lines_text(a));
    } else {
        lemma_lines_text_concat(a, b.drop_last());
        assert((a + b).drop_last() =~= a + b.drop_last());
        assert((a + b).last() == b.last());
        assert(lines_text(a) + lines_text(b.drop_last()) + b.last().push('\n') =~= lines_text(a) + (
        lines_text(b.drop_last()) + b.last().push('\n')));
    }
}

proof fn lemma_lines_text_front(ls: Seq<Seq<char>>)
    requires
        ls.len() > 0,
    ensures
        lines_text(ls) == ls[0].push('\n') + lines_text(ls.drop_first()),
{
    assert(ls =~= seq![ls[0]] + ls.drop_first());
    lemma_lines_text_concat(seq![ls[0]], ls.drop_first());
    assert(seq![ls[0]].drop_last() =~= Seq::<Seq<char>>::empty());
    assert(seq![ls[0]].last() == ls[0]);
    assert(lines_text(Seq::<Seq<char>>::empty()) == Seq::<char>::empty());
    assert(Seq::<char>::empty() + ls[0].push('\n') =~= ls[0].push('\n'));
    assert(lines_text(seq![ls[0]]) =~= ls[0].push('\n'));
}

proof fn lemma_scan(s: Seq<char>, start: int, i: int, j: int)
    requires
        0 <= i <= j <= s.len(),
        forall|k: int| i <= k < j ==> s[k] != '\n',
    ensures
        lines_acc(s, start, i) == lines_acc(s, start, j),
    decreases j - i,
{
    if i < j {
        lemma_scan(s, start, i + 1, j);
    }
}

proof fn lemma_lines_of(s: Seq<char>, p: int, ls: Seq<Seq<char>>)
    requires
        0 <= p <= s.len(),
        s.subrange(p, s.len() as int) == lines_text(ls),
        forall|i: int| 0 <= i < ls.len() ==> no_nl(#[trigger] ls[i]),
    ensures
        lines_acc(s, p, p) == stripped(ls),
    decreases ls.len(),
{
    if ls.len() == 0 {
        assert(s.subrange(p, s.len() as int).len() == 0);
        assert(stripped(ls) =~= Seq::<Seq<char>>::empty());
    } else {
        lemma_lines_text_front(ls);
        let l = ls[0];
        let t = s.subrange(p, s.len() as int);
        let e = p + l.len();
        assert(t == l.push('\n') + lines_text(ls.drop_first()));
        assert(t.len() == s.len() - p);
        assert(e + 1 <= s.len());
        assert(no_nl(l));
        assert forall|k: int| p <= k < e implies s[k] != '\n' by {
            assert(s[k] == t[k - p]);
            assert(t[k - p] == l[k - p]);
        }
        lemma_scan(s, p, p, e);
        assert(s[e] == t[l.len() as int]);
        assert(s[e] == '\n');
        assert(s.subrange(p, e) =~= l);
        let rest = lines_text(ls.drop_first());
        assert forall|k: int| 0 <= k < rest.len() implies s.subrange(e + 1, s.len() as int)[k] == rest[k] by {
            assert(s[e + 1 + k] == t[l.len() + 1 + k]);
        }
        assert(s.subrange(e + 1, s.len() as int) =~= rest);
        assert forall|i: int| 0 <= i < ls.drop_first().len() implies no_nl(#[trigger] ls.drop_first()[i]) by {
            assert(ls.drop_first()[i] == ls[i + 1]);
        }
        lemma_lines_of(s, e + 1, ls.drop_first());
        assert(stripped(ls) =~= seq![strip_cr(l)] + stripped(ls.drop_first()));
    }
}

proof fn lemma_header_concat(a: Seq<Seq<char>>, b: Seq<Seq<char>>)
    ensures
        header_of_lines(a + b) == header_of_lines(a) + header_of_lines(b),
    decreases b.len(),
{
    if b.len() == 0 {
        assert(a + b =~= a);
        assert(header_of_lines(a) + Seq::<Seq<char>>::empty() =~= header_of_lines(a));
    } else {
        lemma_header_concat(a, b.drop_last());
        assert((a + b).drop_last() =~= a + b.drop_last());
        assert((a + b).last() == b.last());
        if is_header_line(b.last()) {
            assert(header_of_lines(a) + header_of_lines(b.drop_last()).push(b.last()) =~= (
            header_of_lines(a) + header_of_lines(b.drop_last())).push(b.last()));
        }
    }
}

proof fn lemma_ingots_concat(a: Seq<Seq<char>>, b: Seq<Seq<char>>)
    ensures
        ingots_of_lines(a + b) == ingots_of_lines(a) + ingots_of_lines(b),
    decreases b.len(),
{
    if b.len() == 0 {
        assert(a + b =~= a);
        assert(ingots_of_lines(a) + Seq::<IngotView>::empty() =~= ingots_of_lines(a));
    } else {
        lemma_ingots_concat(a, b.drop_last());
        assert((a + b).drop_last() =~= a + b.drop_last());
        assert((a + b).last() == b.last());
        match ingot_of_line(b.last()) {
            Some(u) => {
                assert(ingots_of_lines(a) + ingots_of_lines(b.drop_last()).push(u) =~= (
                ingots_of_lines(a) + ingots_of_lines(b.drop_last())).push(u));
            },
            None => {},
        }
    }
}

/// Dropping trailing whitespace does not change the trimmed text.
proof fn lemma_trim_drop_ws(s: Seq<char>)
    requires
        s.len() > 0,
        is_ws(s.last()),
    ensures
        trim(s) == trim(s.drop_last()),
    decreases s.len(),
{
    if is_ws(s[0]) {
        if s.len() == 1 {
            assert(s.drop_first() =~= Seq::<char>::empty());
            assert(s.drop_last() =~= Seq::<char>::empty());
        } else {
            let d = s.drop_first();
            assert(d.last() == s.last());
            lemma_trim_drop_ws(d);
            assert(s.drop_last().drop_first() =~= d.drop_last());
            assert(s.drop_last()[0] == s[0]);
        }
    } else {
        assert(s.len() >= 2);
        assert(s.drop_last()[0] == s[0]);
        assert(trim_start(s) == s);
        assert(trim_start(s.drop_last()) == s.drop_last());
    }
}

proof fn lemma_all_header(ls: Seq<Seq<char>>)
    requires
        forall|i: int| 0 <= i < ls.len() ==> is_header_line(#[trigger] ls[i]),
    ensures
        header_of_lines(ls) == ls,
        ingots_of_lines(ls) == Seq::<IngotView>::empty(),
    decreases ls.len(),
{
    reveal_strlit("(unit ");
    if ls.len() > 0 {
        assert forall|i: int| 0 <= i < ls.drop_last().len() implies is_header_line(
            #[trigger] ls.drop_last()[i],
        ) by {
            assert(ls.drop_last()[i] == ls[i]);
        }
        lemma_all_header(ls.drop_last());
        assert(is_header_line(ls[ls.len() - 1]));
        assert(ls.drop_last().push(ls.last()) =~= ls);
    }
}

proof fn lemma_all_records(us: Seq<IngotView>)
    requires
        forall|i: int| 0 <= i < us.len() ==> extras_ok((#[trigger] us[i]).extra),
    ensures
        header_of_lines(texts(us)) == Seq::<Seq<char>>::empty(),
        ingots_of_lines(texts(us)) == us,
    decreases us.len(),
{
    if us.len() > 0 {
        let d = us.drop_last();
        assert forall|i: int| 0 <= i < d.len() implies extras_ok((#[trigger] d[i]).extra) by {
            assert(d[i] == us[i]);
        }
        lemma_all_records(d);
        assert(texts(us).drop_last() =~= texts(d));
        let u = us.last();
        assert(extras_ok(us[us.len() - 1].extra));
        lemma_line(u);
        lemma_round_trip(u);
        assert(texts(us).last() == ingot_text(u));
        assert(!is_header_line(ingot_text(u)));
        assert(d.push(u) =~= us);
    }
}

proof fn lemma_texts_unstripped(us: Seq<IngotView>)
    ensures
        stripped(texts(us)) == texts(us),
{
    reveal_strlit(")");
    assert forall|i: int| 0 <= i < us.len() implies #[trigger] stripped(texts(us))[i] == texts(us)[i] by {
        let t = ingot_text(us[i]);
        assert(t.last() == ')');
    }
    assert(stripped(texts(us)) =~= texts(us));
}

/// Saving a ledger and loading the saved text gives back the same units and
/// the same header lines, less a final carriage return, when no header line or unit record holds a line
/// break, every header line is one a load keeps as a header, and every
/// unit's extra fields read back (see `lemma_round_trip`).
pub proof fn lemma_save_load(c: CrucibleView)
    requires
        forall|i: int| 0 <= i < c.header.len() ==> no_nl(#[trigger] c.header[i]) && is_header_line(c.header[i]),
        forall|i: int| 0 <= i < c.ingots.len() ==> extras_ok((#[trigger] c.ingots[i]).extra) && no_nl(ingot_text(c.ingots[i])),
    ensures
        ingots_of_text(ledger_text(c)) == c.ingots,
        header_of_lines(lines(ledger_text(c))) == stripped(c.header),
        header_of_lines(lines(ledger_text(c))).len() == c.header.len(),
{
    let h = c.header;
    let r = texts(c.ingots);
    lemma_records_text(c.ingots);
    lemma_lines_text_concat(h, r);
    let s = ledger_text(c);
    assert(s == lines_text(h + r));
    assert(s.subrange(0, s.len() as int) =~= s);
    assert forall|i: int| 0 <= i < (h + r).len() implies no_nl(#[trigger] (h + r)[i]) by {
        if i < h.len() {
            assert((h + r)[i] == h[i]);
        } else {
            assert((h + r)[i] == r[i - h.len()]);
            assert(no_nl(ingot_text(c.ingots[i - h.len()])));
        }
    }
    lemma_lines_of(s, 0, h + r);
    assert(lines(s) == stripped(h + r));
    lemma_texts_unstripped(c.ingots);
    assert(stripped(h + r) =~= stripped(h) + r);
    assert forall|i: int| 0 <= i < stripped(h).len() implies is_header_line(#[trigger] stripped(h)[i]) by {
        let l = h[i];
        assert(is_header_line(l));
        if l.len() > 0 && l.last() == '\r' {
            lemma_trim_drop_ws(l);
        }
    }
    lemma_all_header(stripped(h));
    lemma_all_records(c.ingots);
    lemma_header_concat(stripped(h), r);
    lemma_ingots_concat(stripped(h), r);
    assert(stripped(h) + Seq::<Seq<char>>::empty() =~= stripped(h));
    assert(Seq::<IngotView>::empty() + c.ingots =~= c.ingots);
}

proof fn lemma_nl_add(a: Seq<char>, b: Seq<char>)
    requires
        no_nl(a),
        no_nl(b),
    ensures
        no_nl(a + b),
{
    assert forall|i: int| 0 <= i < (a + b).len() implies (a + b)[i] != '\n' by {
        if i < a.len() {
            assert((a + b)[i] == a[i]);
        } else {
            assert((a + b)[i] == b[i - a.len()]);
        }
    }
}

proof fn lemma_nl_escaped(v: Seq<char>)
    requires
        no_nl(v),
    ensures
        no_nl(escaped(v)),
    decreases v.len(),
{
    if v.len() > 0 {
        assert(no_nl(v.drop_last())) by {
            assert forall|i: int| 0 <= i < v.drop_last().len() implies v.drop_last()[i] != '\n' by {
                assert(v.drop_last()[i] == v[i]);
            }
        }
        lemma_nl_escaped(v.drop_last());
        assert(v.last() == v[v.len() - 1]);
        lemma_nl_add(escaped(v.drop_last()), escape_char(v.last()));
    }
}

proof fn lemma_nl_quoted(v: Seq<char>)
    requires
        no_nl(v),
    ensures
        no_nl(quoted(v)),
{
    lemma_nl_escaped(v);
    lemma_nl_add(seq!['"'], escaped(v));
    lemma_nl_add(seq!['"'] + escaped(v), seq!['"']);
}

pub open spec fn pair_ok(p: (Seq<char>, Seq<char>)) -> bool {
    key_ok(p.0) && no_nl(p.0) && no_nl(p.1)
}

pub open spec fn pairs_ok(fs: Seq<(Seq<char>, Seq<char>)>) -> bool {
    forall|i: int| 0 <= i < fs.len() ==> pair_ok(#[trigger] fs[i])
}

/// What the lexer holds at `i` came from the text so far, keys without
/// whitespace.
pub open spec fn state_ok(s: Seq<char>, i: int, st: Lex) -> bool {
    match st {
        Lex::Gap => true,
        Lex::Key(b) => 0 <= b <= i && forall|j: int| b <= j < i ==> !is_ws(#[trigger] s[j]),
        Lex::Sep(k) => key_ok(k) && no_nl(k),
        Lex::Bare(k, b) => key_ok(k) && no_nl(k) && 0 <= b <= i,
        Lex::Quoted(k, v) => key_ok(k) && no_nl(k) && no_nl(v),
        Lex::Escape(k, v) => key_ok(k) && no_nl(k) && no_nl(v),
    }
}

proof fn lemma_pairs_add(a: Seq<(Seq<char>, Seq<char>)>, b: Seq<(Seq<char>, Seq<char>)>)
    requires
        pairs_ok(a),
        pairs_ok(b),
    ensures
        pairs_ok(a + b),
{
    assert forall|i: int| 0 <= i < (a + b).len() implies pair_ok(#[trigger] (a + b)[i]) by {
        if i < a.len() {
            assert((a + b)[i] == a[i]);
        } else {
            assert((a + b)[i] == b[i - a.len()]);
        }
    }
}

proof fn lemma_sub_nl(s: Seq<char>, a: int, b: int)
    requires
        no_nl(s),
        0 <= a <= b <= s.len(),
    ensures
        no_nl(s.subrange(a, b)),
{
    assert forall|i: int| 0 <= i < b - a implies s.subrange(a, b)[i] != '\n' by {
        assert(s.subrange(a, b)[i] == s[a + i]);
    }
}

proof fn lemma_lex_ok(s: Seq<char>, i: int, st: Lex)
    requires
        no_nl(s),
        0 <= i <= s.len(),
        state_ok(s, i, st),
    ensures
        pairs_ok(lex_from(s, i, st)),
    decreases s.len() - i,
{
    if i >= s.len() {
        match st {
            Lex::Key(b) => {
                lemma_sub_nl(s, b, s.len() as int);
                assert forall|j: int| 0 <= j < s.len() - b implies !is_ws(#[trigger] s.subrange(b, s.len() as int)[j]) by {
                    assert(s.subrange(b, s.len() as int)[j] == s[b + j]);
                }
            },
            Lex::Bare(k, b) => {
                lemma_sub_nl(s, b, s.len() as int);
            },
            Lex::Escape(k, v) => {
                assert forall|j: int| 0 <= j < v.push('\\').len() implies v.push('\\')[j] != '\n' by {
                    if j < v.len() {
                        assert(v.push('\\')[j] == v[j]);
                    }
                }
            },
            _ => {},
        }
        assert(pairs_ok(lex_finish(s, st)));
    } else {
        let c = s[i];
        assert(c != '\n');
        let (n, e) = lex_step(s, i, st);
        match st {
            Lex::Key(b) => {
                if is_ws(c) {
                    lemma_sub_nl(s, b, i);
                    assert forall|j: int| 0 <= j < i - b implies !is_ws(#[trigger] s.subrange(b, i)[j]) by {
                        assert(s.subrange(b, i)[j] == s[b + j]);
                    }
                }
            },
            Lex::Bare(k, b) => {
                if is_ws(c) || c == ')' {
                    lemma_sub_nl(s, b, i);
                }
            },
            Lex::Quoted(k, v) => {
                assert forall|j: int| 0 <= j < v.push(c).len() implies v.push(c)[j] != '\n' by {
                    if j < v.len() {
                        assert(v.push(c)[j] == v[j]);
                    }
                }
            },
            Lex::Escape(k, v) => {
                assert forall|j: int| 0 <= j < v.push(c).len() implies v.push(c)[j] != '\n' by {
                    if j < v.len() {
                        assert(v.push(c)[j] == v[j]);
                    }
                }
            },
            _ => {},
        }
        assert(state_ok(s, i + 1, n));
        assert(pairs_ok(e));
        lemma_lex_ok(s, i + 1, n);
        lemma_pairs_add(e, lex_from(s, i + 1, n));
    }
}

proof fn lemma_lookup_ok(fs: Seq<(Seq<char>, Seq<char>)>, key: Seq<char>)
    requires
        pairs_ok(fs),
    ensures
        lookup(fs, key) matches Some(v) ==> no_nl(v),
    decreases fs.len(),
{
    if fs.len() > 0 {
        assert(pair_ok(fs[0]));
        assert(pairs_ok(fs.drop_first())) by {
            assert forall|i: int| 0 <= i < fs.drop_first().len() implies pair_ok(#[trigger] fs.drop_first()[i]) by {
                assert(fs.drop_first()[i] == fs[i + 1]);
            }
        }
        lemma_lookup_ok(fs.drop_first(), key);
    }
}

proof fn lemma_unknown_ok(fs: Seq<(Seq<char>, Seq<char>)>)
    requires
        pairs_ok(fs),
    ensures
        pairs_ok(unknown_fields(fs)),
        forall|i: int| 0 <= i < unknown_fields(fs).len() ==> !is_known((#[trigger] unknown_fields(fs)[i]).0),
    decreases fs.len(),
{
    if fs.len() > 0 {
        assert(pairs_ok(fs.drop_last())) by {
            assert forall|i: int| 0 <= i < fs.drop_last().len() implies pair_ok(#[trigger] fs.drop_last()[i]) by {
                assert(fs.drop_last()[i] == fs[i]);
            }
        }
        lemma_unknown_ok(fs.drop_last());
        assert(pair_ok(fs[fs.len() - 1]));
    }
}

proof fn lemma_trim_end_nl(s: Seq<char>)
    requires
        no_nl(s),
    ensures
        no_nl(trim_end(s)),
    decreases s.len(),
{
    if s.len() > 0 && is_ws(s.last()) {
        lemma_sub_nl(s, 0, s.len() - 1);
        assert(s.drop_last() =~= s.subrange(0, s.len() - 1));
        lemma_trim_end_nl(s.drop_last());
    }
}

proof fn lemma_trim_start_nl(s: Seq<char>)
    requires
        no_nl(s),
    ensures
        no_nl(trim_start(s)),
    decreases s.len(),
{
    if s.len() > 0 && is_ws(s[0]) {
        lemma_sub_nl(s, 1, s.len() as int);
        assert(s.drop_first() =~= s.subrange(1, s.len() as int));
        lemma_trim_start_nl(s.drop_first());
    }
}

proof fn lemma_extra_nl(es: Seq<(Seq<char>, Seq<char>)>)
    requires
        pairs_ok(es),
    ensures
        no_nl(extra_text(es)),
    decreases es.len(),
{
    reveal_strlit("(unit :id ");
    reveal_strlit(")");
    reveal_strlit(" :status ");
    reveal_strlit(" :independent ");
    reveal_strlit(" :grade ");
    reveal_strlit(" :skill ");
    reveal_strlit(" :attempt ");
    reveal_strlit(" :attempt_limit ");
    reveal_strlit(" :escalation ");
    reveal_strlit(" :proof ");
    reveal_strlit(" :description ");
    reveal_strlit(" :");
    reveal_strlit(" ");
    reveal_strlit("pending");
    reveal_strlit("in_progress");
    reveal_strlit("done");
    reveal_strlit("failed");
    reveal_strlit("web");
    reveal_strlit("api");
    reveal_strlit("cli");
    reveal_strlit("default");
    reveal_strlit("t");
    reveal_strlit("nil");
    reveal_strlit("true");
    reveal_strlit("");
    if es.len() > 0 {
        assert(pairs_ok(es.drop_last())) by {
            assert forall|i: int| 0 <= i < es.drop_last().len() implies pair_ok(#[trigger] es.drop_last()[i]) by {
                assert(es.drop_last()[i] == es[i]);
            }
        }
        lemma_extra_nl(es.drop_last());
        let (k, v) = es.last();
        assert(pair_ok(es[es.len() - 1]));
        lemma_nl_quoted(v);
        let a = extra_text(es.drop_last());
        lemma_nl_add(a, " :"@);
        lemma_nl_add(a + " :"@, k);
        lemma_nl_add(a + " :"@ + k, " "@);
        lemma_nl_add(a + " :"@ + k + " "@, value_text(v));
    }
}

/// A unit read from a line without line breaks has a record without line
/// breaks, and extra fields that read back.
proof fn lemma_loaded_unit(l: Seq<char>)
    requires
        no_nl(l),
        ingot_of_line(l) is Some,
    ensures
        extras_ok(ingot_of_line(l)->0.extra),
        no_nl(ingot_text(ingot_of_line(l)->0)),
{
    reveal_strlit("(unit :id ");
    reveal_strlit(")");
    reveal_strlit(" :status ");
    reveal_strlit(" :independent ");
    reveal_strlit(" :grade ");
    reveal_strlit(" :skill ");
    reveal_strlit(" :attempt ");
    reveal_strlit(" :attempt_limit ");
    reveal_strlit(" :escalation ");
    reveal_strlit(" :proof ");
    reveal_strlit(" :description ");
    reveal_strlit(" :");
    reveal_strlit(" ");
    reveal_strlit("pending");
    reveal_strlit("in_progress");
    reveal_strlit("done");
    reveal_strlit("failed");
    reveal_strlit("web");
    reveal_strlit("api");
    reveal_strlit("cli");
    reveal_strlit("default");
    reveal_strlit("t");
    reveal_strlit("nil");
    reveal_strlit("true");
    reveal_strlit("");
    let u = ingot_of_line(l)->0;
    let t = trim(l);
    lemma_trim_start_nl(l);
    lemma_trim_end_nl(trim_start(l));
    reveal_strlit("(unit ");
    assert(t.subrange(0, 6)[5] == t[5]);
    if crate::text::ends_with(t, ")"@) {
        assert(t.subrange(t.len() - 1, t.len() as int)[0] == t[t.len() - 1]);
    }
    let hi = t.len() - if crate::text::ends_with(t, ")"@) { 1int } else { 0int };
    lemma_sub_nl(t, 6, hi);
    let fs = fields_of(record_inner(t));
    lemma_lex_ok(record_inner(t), 0, Lex::Gap);
    lemma_unknown_ok(fs);
    assert forall|i: int| 0 <= i < u.extra.len() implies key_ok((#[trigger] u.extra[i]).0) && !is_known(u.extra[i].0) by {
        assert(pair_ok(unknown_fields(fs)[i]));
    }
    lemma_lookup_ok(fs, "id"@);
    lemma_lookup_ok(fs, "proof"@);
    lemma_lookup_ok(fs, "description"@);
    assert(no_nl(u.id));
    assert(no_nl(u.proof));
    assert(no_nl(u.work));
    lemma_nl_quoted(u.id);
    lemma_nl_quoted(u.proof);
    lemma_nl_quoted(u.work);
    lemma_dec_text_digits(u.grade as nat);
    lemma_dec_text_digits(u.heat as nat);
    lemma_dec_text_digits(u.max as nat);
    lemma_dec_text_digits(u.smelt as nat);
    assert(no_nl(status_word(u.status)));
    assert(no_nl(skill_word(u.skill)));
    assert(no_nl(flag_text(u.solo)));
    lemma_extra_nl(u.extra);
    lemma_nl_add(" :status "@, status_word(u.status));
    lemma_nl_add(" :status "@ + status_word(u.status), " :independent "@);
    lemma_nl_add(" :status "@ + status_word(u.status) + " :independent "@, flag_text(u.solo));
    lemma_nl_add(" :status "@ + status_word(u.status) + " :independent "@ + flag_text(u.solo), " :grade "@);
    lemma_nl_add(" :status "@ + status_word(u.status) + " :independent "@ + flag_text(u.solo) + " :grade "@, dec_text(u.grade as nat));
    lemma_nl_add(" :status "@ + status_word(u.status) + " :independent "@ + flag_text(u.solo) + " :grade "@ + dec_text(u.grade as nat), " :skill "@);
    lemma_nl_add(" :status "@ + status_word(u.status) + " :independent "@ + flag_text(u.solo) + " :grade "@ + dec_text(u.grade as nat) + " :skill "@, skill_word(u.skill));
    lemma_nl_add(" :status "@ + status_word(u.status) + " :independent "@ + flag_text(u.solo) + " :grade "@ + dec_text(u.grade as nat) + " :skill "@ + skill_word(u.skill), " :attempt "@);
    lemma_nl_add(" :status "@ + status_word(u.status) + " :independent "@ + flag_text(u.solo) + " :grade "@ + dec_text(u.grade as nat) + " :skill "@ + skill_word(u.skill) + " :attempt "@, dec_text(u.heat as nat));
    lemma_nl_add(" :status "@ + status_word(u.status) + " :independent "@ + flag_text(u.solo) + " :grade "@ + dec_text(u.grade as nat) + " :skill "@ + skill_word(u.skill) + " :attempt "@ + dec_text(u.heat as nat), " :attempt_limit "@);
    lemma_nl_add(" :status "@ + status_word(u.status) + " :independent "@ + flag_text(u.solo) + " :grade "@ + dec_text(u.grade as nat) + " :skill "@ + skill_word(u.skill) + " :attempt "@ + dec_text(u.heat as nat) + " :attempt_limit "@, dec_text(u.max as nat));
    lemma_nl_add(" :status "@ + status_word(u.status) + " :independent "@ + flag_text(u.solo) + " :grade "@ + dec_text(u.grade as nat) + " :skill "@ + skill_word(u.skill) + " :attempt "@ + dec_text(u.heat as nat) + " :attempt_limit "@ + dec_text(u.max as nat), " :escalation "@);
    lemma_nl_add(" :status "@ + status_word(u.status) + " :independent "@ + flag_text(u.solo) + " :grade "@ + dec_text(u.grade as nat) + " :skill "@ + skill_word(u.skill) + " :attempt "@ + dec_text(u.heat as nat) + " :attempt_limit "@ + dec_text(u.max as nat) + " :escalation "@, dec_text(u.smelt as nat));
    lemma_nl_add(" :status "@ + status_word(u.status) + " :independent "@ + flag_text(u.solo) + " :grade "@ + dec_text(u.grade as nat) + " :skill "@ + skill_word(u.skill) + " :attempt "@ + dec_text(u.heat as nat) + " :attempt_limit "@ + dec_text(u.max as nat) + " :escalation "@ + dec_text(u.smelt as nat), " :proof "@);
    lemma_nl_add(" :status "@ + status_word(u.status) + " :independent "@ + flag_text(u.solo) + " :grade "@ + dec_text(u.grade as nat) + " :skill "@ + skill_word(u.skill) + " :attempt "@ + dec_text(u.heat as nat) + " :attempt_limit "@ + dec_text(u.max as nat) + " :escalation "@ + dec_text(u.smelt as nat) + " :proof "@, quoted(u.proof));
    lemma_nl_add(" :status "@ + status_word(u.status) + " :independent "@ + flag_text(u.solo) + " :grade "@ + dec_text(u.grade as nat) + " :skill "@ + skill_word(u.skill) + " :attempt "@ + dec_text(u.heat as nat) + " :attempt_limit "@ + dec_text(u.max as nat) + " :escalation "@ + dec_text(u.smelt as nat) + " :proof "@ + quoted(u.proof), " :description "@);
    lemma_nl_add(" :status "@ + status_word(u.status) + " :independent "@ + flag_text(u.solo) + " :grade "@ + dec_text(u.grade as nat) + " :skill "@ + skill_word(u.skill) + " :attempt "@ + dec_text(u.heat as nat) + " :attempt_limit "@ + dec_text(u.max as nat) + " :escalation "@ + dec_text(u.smelt as nat) + " :proof "@ + quoted(u.proof) + " :description "@, quoted(u.work));
    assert(typed_text(u) == " :status "@ + status_word(u.status) + " :independent "@ + flag_text(u.solo) + " :grade "@ + dec_text(u.grade as nat) + " :skill "@ + skill_word(u.skill) + " :attempt "@ + dec_text(u.heat as nat) + " :attempt_limit "@ + dec_text(u.max as nat) + " :escalation "@ + dec_text(u.smelt as nat) + " :proof "@ + quoted(u.proof) + " :description "@ + quoted(u.work));
    lemma_nl_add("(unit :id "@, quoted(u.id));
    lemma_nl_add("(unit :id "@ + quoted(u.id), typed_text(u));
    lemma_nl_add("(unit :id "@ + quoted(u.id) + typed_text(u), extra_text(u.extra));
    lemma_nl_add("(unit :id "@ + quoted(u.id) + typed_text(u) + extra_text(u.extra), ")"@);
}

pub open spec fn all_no_nl(ls: Seq<Seq<char>>) -> bool {
    forall|i: int| 0 <= i < ls.len() ==> no_nl(#[trigger] ls[i])
}

proof fn lemma_lines_nl(s: Seq<char>, start: int, i: int)
    requires
        0 <= start <= i <= s.len(),
        forall|j: int| start <= j < i ==> s[j] != '\n',
    ensures
        all_no_nl(lines_acc(s, start, i)),
    decreases s.len() - i,
{
    if i >= s.len() {
        if start < s.len() {
            lemma_sub_nl_region(s, start, s.len() as int);
        }
    } else if s[i] == '\n' {
        lemma_sub_nl_region(s, start, i);
        let seg = s.subrange(start, i);
        assert(no_nl(strip_cr(seg))) by {
            if seg.len() > 0 && seg.last() == '\r' {
                assert forall|k: int| 0 <= k < seg.drop_last().len() implies seg.drop_last()[k] != '\n' by {
                    assert(seg.drop_last()[k] == seg[k]);
                }
            }
        }
        lemma_lines_nl(s, i + 1, i + 1);
        let rest = lines_acc(s, i + 1, i + 1);
        assert forall|k: int| 0 <= k < (seq![strip_cr(seg)] + rest).len() implies no_nl(#[trigger] (seq![strip_cr(seg)] + rest)[k]) by {
            if k > 0 {
                assert((seq![strip_cr(seg)] + rest)[k] == rest[k - 1]);
            }
        }
    } else {
        lemma_lines_nl(s, start, i + 1);
    }
}

proof fn lemma_sub_nl_region(s: Seq<char>, a: int, b: int)
    requires
        0 <= a <= b <= s.len(),
        forall|j: int| a <= j < b ==> s[j] != '\n',
    ensures
        no_nl(s.subrange(a, b)),
{
    assert forall|k: int| 0 <= k < b - a implies s.subrange(a, b)[k] != '\n' by {
        assert(s.subrange(a, b)[k] == s[a + k]);
    }
}

proof fn lemma_loaded_header(ls: Seq<Seq<char>>)
    requires
        all_no_nl(ls),
    ensures
        forall|i: int| 0 <= i < header_of_lines(ls).len() ==> no_nl(#[trigger] header_of_lines(ls)[i]) && is_header_line(header_of_lines(ls)[i]),
    decreases ls.len(),
{
    if ls.len() > 0 {
        assert(all_no_nl(ls.drop_last())) by {
            assert forall|i: int| 0 <= i < ls.drop_last().len() implies no_nl(#[trigger] ls.drop_last()[i]) by {
                assert(ls.drop_last()[i] == ls[i]);
            }
        }
        lemma_loaded_header(ls.drop_last());
        assert(no_nl(ls[ls.len() - 1]));
        let r = header_of_lines(ls.drop_last());
        if is_header_line(ls.last()) {
            assert forall|i: int| 0 <= i < r.push(ls.last()).len() implies no_nl(#[trigger] r.push(ls.last())[i]) && is_header_line(r.push(ls.last())[i]) by {
                if i < r.len() {
                    assert(r.push(ls.last())[i] == r[i]);
                }
            }
        }
    }
}

proof fn lemma_loaded_units(ls: Seq<Seq<char>>)
    requires
        all_no_nl(ls),
    ensures
        forall|i: int| 0 <= i < ingots_of_lines(ls).len() ==> extras_ok((#[trigger] ingots_of_lines(ls)[i]).extra) && no_nl(ingot_text(ingots_of_lines(ls)[i])),
    decreases ls.len(),
{
    if ls.len() > 0 {
        assert(all_no_nl(ls.drop_last())) by {
            assert forall|i: int| 0 <= i < ls.drop_last().len() implies no_nl(#[trigger] ls.drop_last()[i]) by {
                assert(ls.drop_last()[i] == ls[i]);
            }
        }
        lemma_loaded_units(ls.drop_last());
        assert(no_nl(ls[ls.len() - 1]));
        if ingot_of_line(ls.last()) is Some {
            lemma_loaded_unit(ls.last());
        }
    }
}

/// Loading a ledger text, saving the ledger unchanged, and loading the saved
/// text gives the same units and the same header lines (a carriage return
/// that ended the text without a line feed is dropped).
pub proof fn lemma_load_save_load(path: Seq<char>, content: Seq<char>)
    ensures
        ({
            let c = CrucibleView {
                path,
                header: header_of_lines(lines(content)),
                ingots: ingots_of_text(content),
            };
            &&& ingots_of_text(ledger_text(c)) == c.ingots
            &&& header_of_lines(lines(ledger_text(c))) == stripped(c.header)
            &&& header_of_lines(lines(ledger_text(c))).len() == c.header.len()
        }),
{
    let c = CrucibleView {
        path,
        header: header_of_lines(lines(content)),
        ingots: ingots_of_text(content),
    };
    lemma_lines_nl(content, 0, 0);
    lemma_loaded_header(lines(content));
    lemma_loaded_units(lines(content));
    lemma_save_load(c);
}

} // verus!
