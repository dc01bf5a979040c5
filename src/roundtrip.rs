//! Reading back what was written: a unit record parses to the unit it was
//! written from.

use vstd::prelude::*;
use crate::parser::{Lex, lex_from, lex_step, lex_finish, fields_of};
use crate::text::is_ws;
use crate::writer::{escaped, escape_char, needs_quotes, quoted, dec_text, digit_char, flag_text, extra_text, ingot_text, typed_text, value_text};
use crate::parser::{u8_of, dec_val, digits_part, all_digits, is_digit, lookup, is_known, unknown_fields, ingot_of_fields, ingot_of_line, record_inner, number_or, text_or};
use crate::sexp::{IngotView, Skill, Status, skill_of_word, skill_word, status_of_word, status_word};
use crate::text::{trim, trim_start, trim_end, starts_with, ends_with};

verus! {

/// One field as written: `:key value`, the value quoted or bare.
pub open spec fn chunk(k: Seq<char>, v: Seq<char>, q: bool) -> Seq<char> {
    ":"@ + k + " "@ + if q {
        quoted(v)
    } else {
        v
    }
}

pub open spec fn key_ok(k: Seq<char>) -> bool {
    forall|i: int| 0 <= i < k.len() ==> !is_ws(#[trigger] k[i])
}

/// A key without whitespace, and a value that is quoted or needs no quotes.
pub open spec fn chunk_ok(c: (Seq<char>, Seq<char>, bool)) -> bool {
    key_ok(c.0) && (c.2 || !needs_quotes(c.1))
}

/// Fields as written after the first, each after a space.
pub open spec fn sep_text(cs: Seq<(Seq<char>, Seq<char>, bool)>) -> Seq<char>
    decreases cs.len(),
{
    if cs.len() == 0 {
        seq![]
    } else {
        sep_text(cs.drop_last()) + " "@ + chunk(cs.last().0, cs.last().1, cs.last().2)
    }
}

pub open spec fn pairs_of(cs: Seq<(Seq<char>, Seq<char>, bool)>) -> Seq<(Seq<char>, Seq<char>)> {
    cs.map_values(|c: (Seq<char>, Seq<char>, bool)| (c.0, c.1))
}

proof fn lemma_empty_add<T>(x: Seq<T>)
    ensures
        Seq::<T>::empty() + x == x,
{
    assert(Seq::<T>::empty() + x =~= x);
}

proof fn lemma_key_run(s: Seq<char>, a: int, b: int, start: int)
    requires
        0 <= a <= b <= s.len(),
        forall|j: int| a <= j < b ==> !is_ws(#[trigger] s[j]),
    ensures
        lex_from(s, a, Lex::Key(start)) == lex_from(s, b, Lex::Key(start)),
    decreases b - a,
{
    if a < b {
        lemma_key_run(s, a + 1, b, start);
        lemma_empty_add(lex_from(s, a + 1, Lex::Key(start)));
    }
}

proof fn lemma_bare_run(s: Seq<char>, a: int, b: int, k: Seq<char>, start: int)
    requires
        0 <= a <= b <= s.len(),
        forall|j: int| a <= j < b ==> !is_ws(#[trigger] s[j]) && s[j] != ')',
    ensures
        lex_from(s, a, Lex::Bare(k, start)) == lex_from(s, b, Lex::Bare(k, start)),
    decreases b - a,
{
    if a < b {
        lemma_bare_run(s, a + 1, b, k, start);
        lemma_empty_add(lex_from(s, a + 1, Lex::Bare(k, start)));
    }
}

proof fn lemma_quoted_run(s: Seq<char>, a: int, k: Seq<char>, acc: Seq<char>, v: Seq<char>)
    requires
        0 <= a,
        a + escaped(v).len() <= s.len(),
        s.subrange(a, a + escaped(v).len()) == escaped(v),
    ensures
        lex_from(s, a, Lex::Quoted(k, acc)) == lex_from(
            s,
            a + escaped(v).len(),
            Lex::Quoted(k, acc + v),
        ),
    decreases v.len(),
{
    if v.len() == 0 {
        assert(acc + v =~= acc);
    } else {
        let w = v.drop_last();
        let c = v.last();
        let ew = escaped(w);
        assert(escaped(v) == ew + escape_char(c));
        assert(s.subrange(a, a + ew.len()) =~= escaped(v).subrange(0, ew.len() as int));
        assert(escaped(v).subrange(0, ew.len() as int) =~= ew);
        lemma_quoted_run(s, a, k, acc, w);
        let m = a + ew.len();
        assert(s[m] == escaped(v)[ew.len() as int]);
        assert((acc + w).push(c) =~= acc + v);
        if c == '"' || c == '\\' {
            assert(s[m] == '\\');
            assert(s[m + 1] == escaped(v)[ew.len() + 1int]);
            assert(s[m + 1] == c);
            lemma_empty_add(lex_from(s, m + 1, Lex::Escape(k, acc + w)));
            lemma_empty_add(lex_from(s, m + 2, Lex::Quoted(k, (acc + w).push(c))));
        } else {
            assert(s[m] == c);
            lemma_empty_add(lex_from(s, m + 1, Lex::Quoted(k, (acc + w).push(c))));
        }
    }
}

/// Lexing a written field from between fields yields it, and leaves the
/// lexer between fields right after it.
proof fn lemma_chunk(s: Seq<char>, p: int, k: Seq<char>, v: Seq<char>, q: bool)
    requires
        chunk_ok((k, v, q)),
        0 <= p,
        p + chunk(k, v, q).len() <= s.len(),
        s.subrange(p, p + chunk(k, v, q).len()) == chunk(k, v, q),
        p + chunk(k, v, q).len() == s.len() || is_ws(s[p + chunk(k, v, q).len()]),
    ensures
        lex_from(s, p, Lex::Gap) == seq![(k, v)] + lex_from(s, p + chunk(k, v, q).len(), Lex::Gap),
{
    reveal_strlit(":");
    reveal_strlit(" ");
    let c = chunk(k, v, q);
    let e = p + c.len();
    let val = if q {
        quoted(v)
    } else {
        v
    };
    assert(c == ":"@ + k + " "@ + val);
    assert forall|j: int| 0 <= j < c.len() implies s[p + j] == c[j] by {
        assert(s.subrange(p, e)[j] == s[p + j]);
    }
    assert(s[p + 0] == c[0]);
    assert(c[0] == ":"@[0]);
    assert(s[p] == ':');
    let kb = p + 1;
    let ke = p + 1 + k.len();
    assert forall|j: int| kb <= j < ke implies !is_ws(#[trigger] s[j]) by {
        assert(s[j] == c[j - p]);
        assert(c[j - p] == k[j - p - 1]);
    }
    lemma_empty_add(lex_from(s, kb, Lex::Key(kb)));
    lemma_key_run(s, kb, ke, kb);
    assert(s[ke] == c[k.len() + 1int]);
    assert(s[ke] == ' ');
    assert(s.subrange(kb, ke) =~= k) by {
        assert forall|j: int| 0 <= j < k.len() implies s.subrange(kb, ke)[j] == k[j] by {
            assert(s[kb + j] == c[1 + j]);
        }
    }
    let q0 = ke + 1;
    lemma_empty_add(lex_from(s, q0, Lex::Sep(k)));
    assert forall|j: int| 0 <= j < val.len() implies s[q0 + j] == val[j] by {
        assert(s[q0 + j] == c[k.len() + 2 + j]);
    }
    if q {
        reveal_strlit("\"");
        let ev = escaped(v);
        assert(val == seq!['"'] + ev + seq!['"']);
        assert(s[q0 + 0] == val[0]);
        assert(val[0] == '"');
        assert(s[q0] == '"');
        lemma_empty_add(lex_from(s, q0 + 1, Lex::Quoted(k, seq![])));
        assert(s.subrange(q0 + 1, q0 + 1 + ev.len()) =~= ev) by {
            assert forall|j: int| 0 <= j < ev.len() implies s.subrange(q0 + 1, q0 + 1 + ev.len())[j]
                == ev[j] by {
                assert(s[q0 + 1 + j] == val[1 + j]);
            }
        }
        lemma_quoted_run(s, q0 + 1, k, seq![], v);
        assert(Seq::<char>::empty() + v =~= v);
        let z = q0 + 1 + ev.len();
        assert(s[z] == val[ev.len() + 1int]);
        assert(z + 1 == e);
    } else {
        assert(!needs_quotes(v));
        assert(v.len() > 0);
        assert(s[q0 + 0] == val[0]);
        assert(s[q0] == v[0]);
        assert(!is_ws(v[0]) && v[0] != '"' && v[0] != ')');
        lemma_empty_add(lex_from(s, q0 + 1, Lex::Bare(k, q0)));
        assert forall|j: int| q0 + 1 <= j < e implies !is_ws(#[trigger] s[j]) && s[j] != ')' by {
            assert(s[j] == v[j - q0]);
            assert(!(is_ws(v[j - q0]) || v[j - q0] == '"' || v[j - q0] == ')' || v[j - q0] == '\\'));
        }
        lemma_bare_run(s, q0 + 1, e, k, q0);
        assert(s.subrange(q0, e) =~= v);
        if e < s.len() {
            lemma_empty_add(lex_from(s, e + 1, Lex::Gap));
        } else {
            assert(lex_from(s, e, Lex::Gap) == Seq::<(Seq<char>, Seq<char>)>::empty());
            assert(seq![(k, v)] + Seq::<(Seq<char>, Seq<char>)>::empty() =~= seq![(k, v)]);
        }
    }
}

proof fn lemma_sep_front(cs: Seq<(Seq<char>, Seq<char>, bool)>)
    requires
        cs.len() > 0,
    ensures
        sep_text(cs) == " "@ + chunk(cs[0].0, cs[0].1, cs[0].2) + sep_text(cs.drop_first()),
    decreases cs.len(),
{
    if cs.len() == 1 {
        assert(cs.drop_last() =~= Seq::<(Seq<char>, Seq<char>, bool)>::empty());
        assert(cs.drop_first() =~= Seq::<(Seq<char>, Seq<char>, bool)>::empty());
        lemma_empty_add(" "@ + chunk(cs[0].0, cs[0].1, cs[0].2));
        assert(" "@ + chunk(cs[0].0, cs[0].1, cs[0].2) + seq![] =~= " "@ + chunk(
            cs[0].0,
            cs[0].1,
            cs[0].2,
        ));
    } else {
        let d = cs.drop_last();
        lemma_sep_front(d);
        assert(d.drop_first() =~= cs.drop_first().drop_last());
        assert(d[0] == cs[0]);
        assert(cs.drop_first().last() == cs.last());
        let c0 = chunk(cs[0].0, cs[0].1, cs[0].2);
        let cl = chunk(cs.last().0, cs.last().1, cs.last().2);
        assert(sep_text(cs) == sep_text(d) + " "@ + cl);
        assert(sep_text(cs.drop_first()) == sep_text(d.drop_first()) + " "@ + cl);
        assert((" "@ + c0 + sep_text(d.drop_first())) + " "@ + cl =~= " "@ + c0 + (sep_text(
            d.drop_first(),
        ) + " "@ + cl));
    }
}

proof fn lemma_lex_sep(s: Seq<char>, p: int, cs: Seq<(Seq<char>, Seq<char>, bool)>)
    requires
        0 <= p <= s.len(),
        s.subrange(p, s.len() as int) == sep_text(cs),
        forall|i: int| 0 <= i < cs.len() ==> chunk_ok(#[trigger] cs[i]),
    ensures
        lex_from(s, p, Lex::Gap) == pairs_of(cs),
    decreases cs.len(),
{
    reveal_strlit(" ");
    if cs.len() == 0 {
        assert(s.subrange(p, s.len() as int).len() == 0);
        assert(pairs_of(cs) =~= Seq::<(Seq<char>, Seq<char>)>::empty());
    } else {
        lemma_sep_front(cs);
        let c0 = chunk(cs[0].0, cs[0].1, cs[0].2);
        let rest = sep_text(cs.drop_first());
        let t = s.subrange(p, s.len() as int);
        assert(t == " "@ + c0 + rest);
        assert(s[p] == t[0]);
        assert(s[p] == ' ');
        lemma_empty_add(lex_from(s, p + 1, Lex::Gap));
        assert(chunk_ok(cs[0]));
        let e = p + 1 + c0.len();
        assert(s.subrange(p + 1, e) =~= c0) by {
            assert forall|j: int| 0 <= j < c0.len() implies s.subrange(p + 1, e)[j] == c0[j] by {
                assert(s[p + 1 + j] == t[1 + j]);
            }
        }
        assert(s.subrange(e, s.len() as int) =~= rest) by {
            assert forall|j: int| 0 <= j < rest.len() implies s.subrange(e, s.len() as int)[j]
                == rest[j] by {
                assert(s[e + j] == t[1 + c0.len() + j]);
            }
        }
        if e < s.len() {
            assert(rest.len() > 0);
            lemma_sep_front(cs.drop_first());
            assert(s[e] == rest[0]);
        }
        lemma_chunk(s, p + 1, cs[0].0, cs[0].1, cs[0].2);
        assert forall|i: int| 0 <= i < cs.drop_first().len() implies chunk_ok(
            #[trigger] cs.drop_first()[i],
        ) by {
            assert(cs.drop_first()[i] == cs[i + 1]);
        }
        lemma_lex_sep(s, e, cs.drop_first());
        assert(pairs_of(cs) =~= seq![(cs[0].0, cs[0].1)] + pairs_of(cs.drop_first()));
    }
}

proof fn lemma_sep_concat(a: Seq<(Seq<char>, Seq<char>, bool)>, b: Seq<(Seq<char>, Seq<char>, bool)>)
    ensures
        sep_text(a + b) == sep_text(a) + sep_text(b),
    decreases b.len(),
{
    if b.len() == 0 {
        assert(a + b =~= a);
        assert(sep_text(a) + seq![] =~= sep_text(a));
    } else {
        lemma_sep_concat(a, b.drop_last());
        assert((a + b).drop_last() =~= a + b.drop_last());
        assert((a + b).last() == b.last());
        let cl = chunk(b.last().0, b.last().1, b.last().2);
        assert(sep_text(a) + sep_text(b.drop_last()) + " "@ + cl =~= sep_text(a) + (sep_text(
            b.drop_last(),
        ) + " "@ + cl));
    }
}

proof fn lemma_digit(d: nat)
    requires
        d < 10,
    ensures
        digit_char(d) as nat - '0' as nat == d,
        is_digit(digit_char(d)),
        !is_ws(digit_char(d)),
        digit_char(d) != '"' && digit_char(d) != ')' && digit_char(d) != '\\' && digit_char(d) != '+',
{
    assert(d % 10 == d);
    assert(((d + 48) as u8) as char as nat == d + 48);
}

proof fn lemma_dec_text(n: nat)
    ensures
        dec_text(n).len() > 0,
        all_digits(dec_text(n)),
        dec_val(dec_text(n)) == n,
        forall|i: int| 0 <= i < dec_text(n).len() ==> !is_ws(#[trigger] dec_text(n)[i]) && dec_text(n)[i] != '"'
            && dec_text(n)[i] != ')' && dec_text(n)[i] != '\\' && dec_text(n)[i] != '+',
    decreases n,
{
    let t = dec_text(n);
    if n < 10 {
        lemma_digit(n);
        assert(t == seq![digit_char(n)]);
        assert(t.drop_last() =~= Seq::<char>::empty());
        assert(t.last() == digit_char(n));
        assert(dec_val(t) == dec_val(t.drop_last()) * 10 + (t.last() as nat - '0' as nat) as nat);
    } else {
        lemma_dec_text(n / 10);
        lemma_digit(n % 10);
        let w = dec_text(n / 10);
        assert(t == w.push(digit_char(n % 10)));
        assert(t.drop_last() =~= w);
        assert(digit_char((n % 10) as nat) == digit_char(n));
        assert forall|i: int| 0 <= i < t.len() implies is_digit(#[trigger] t[i]) by {
            if i < w.len() {
                assert(t[i] == w[i]);
            }
        }
        assert forall|i: int| 0 <= i < t.len() implies !is_ws(#[trigger] t[i]) && t[i] != '"' && t[i]
            != ')' && t[i] != '\\' && t[i] != '+' by {
            if i < w.len() {
                assert(t[i] == w[i]);
            }
        }
        assert(n == (n / 10) * 10 + n % 10);
        assert(t.last() == digit_char((n % 10) as nat));
        assert(dec_val(t) == dec_val(w) * 10 + (t.last() as nat - '0' as nat) as nat);
        assert(dec_val(t) == (n / 10) * 10 + n % 10);
    }
}

/// Decimal digits hold no line break.
pub proof fn lemma_dec_text_digits(n: nat)
    ensures
        forall|i: int| 0 <= i < dec_text(n).len() ==> dec_text(n)[i] != '\n',
{
    lemma_dec_text(n);
    assert forall|i: int| 0 <= i < dec_text(n).len() implies dec_text(n)[i] != '\n' by {
        assert(is_digit(dec_text(n)[i]));
    }
}

proof fn lemma_number(n: u8)
    ensures
        u8_of(dec_text(n as nat)) == Some(n),
        !needs_quotes(dec_text(n as nat)),
{
    lemma_dec_text(n as nat);
    let t = dec_text(n as nat);
    assert(t[0] != '+');
    assert(digits_part(t) == t);
}

proof fn lemma_words()
    ensures
        forall|s: Status| #[trigger] status_of_word(status_word(s)) == Some(s),
        forall|s: Status| !needs_quotes(#[trigger] status_word(s)),
        forall|k: Skill| #[trigger] skill_of_word(skill_word(k)) == k,
        forall|k: Skill| !needs_quotes(#[trigger] skill_word(k)),
        forall|b: bool| !needs_quotes(#[trigger] flag_text(b)),
        forall|b: bool| (#[trigger] flag_text(b) == "t"@) == b,
{
    reveal_strlit("pending");
    reveal_strlit("in_progress");
    reveal_strlit("done");
    reveal_strlit("failed");
    reveal_strlit("web");
    reveal_strlit("frontend");
    reveal_strlit("ui");
    reveal_strlit("css");
    reveal_strlit("html");
    reveal_strlit("api");
    reveal_strlit("cli");
    reveal_strlit("default");
    reveal_strlit("t");
    reveal_strlit("nil");
    assert("pending"@.len() == 7);
    assert("in_progress"@.len() == 11);
    assert("done"@.len() == 4);
    assert("failed"@.len() == 6);
    assert("web"@.len() == 3);
    assert("frontend"@.len() == 8);
    assert("ui"@.len() == 2);
    assert("css"@.len() == 3);
    assert("html"@.len() == 4);
    assert("api"@.len() == 3);
    assert("cli"@.len() == 3);
    assert("default"@.len() == 7);
    assert("t"@.len() == 1);
    assert("nil"@.len() == 3);
    assert("pending"@ != "in_progress"@ && "pending"@ != "done"@ && "pending"@ != "failed"@);
    assert("in_progress"@[0] != "done"@[0]);
    assert("in_progress"@ != "done"@ && "in_progress"@ != "failed"@ && "done"@ != "failed"@);
    assert("api"@[0] == 'a' && "web"@[0] == 'w' && "css"@[0] == 'c' && "cli"@[1] == 'l' && "css"@[1] == 's');
    assert("api"@ != "web"@ && "api"@ != "css"@ && "cli"@ != "web"@ && "cli"@ != "css"@ && "cli"@ != "api"@);
    assert("default"@ != "web"@ && "default"@ != "frontend"@ && "default"@ != "ui"@ && "default"@ != "css"@ && "default"@ != "html"@ && "default"@ != "api"@ && "default"@ != "cli"@);
    assert("api"@ != "web"@ && "api"@ != "css"@ && "api"@ != "ui"@ && "api"@ != "html"@ && "api"@ != "frontend"@);
    assert("cli"@ != "web"@ && "cli"@ != "css"@ && "cli"@ != "ui"@ && "cli"@ != "html"@ && "cli"@ != "frontend"@);
    assert("nil"@ != "t"@);
}

pub open spec fn extra_chunks(es: Seq<(Seq<char>, Seq<char>)>) -> Seq<(Seq<char>, Seq<char>, bool)> {
    es.map_values(|e: (Seq<char>, Seq<char>)| (e.0, e.1, needs_quotes(e.1)))
}

/// The typed fields after the id, as written.
pub open spec fn typed_chunks(u: IngotView) -> Seq<(Seq<char>, Seq<char>, bool)> {
    seq![
        ("status"@, status_word(u.status), false),
        ("independent"@, flag_text(u.solo), false),
        ("grade"@, dec_text(u.grade as nat), false),
        ("skill"@, skill_word(u.skill), false),
        ("attempt"@, dec_text(u.heat as nat), false),
        ("attempt_limit"@, dec_text(u.max as nat), false),
        ("escalation"@, dec_text(u.smelt as nat), false),
        ("proof"@, u.proof, true),
        ("description"@, u.work, true),
    ]
}

/// Extra fields that read back as written: names without whitespace that
/// are not names of known fields.
pub open spec fn extras_ok(es: Seq<(Seq<char>, Seq<char>)>) -> bool {
    forall|i: int| 0 <= i < es.len() ==> key_ok((#[trigger] es[i]).0) && !is_known(es[i].0)
}

proof fn lemma_extra_text(es: Seq<(Seq<char>, Seq<char>)>)
    ensures
        extra_text(es) == sep_text(extra_chunks(es)),
    decreases es.len(),
{
    reveal_strlit(" :");
    reveal_strlit(" ");
    reveal_strlit(":");
    if es.len() > 0 {
        lemma_extra_text(es.drop_last());
        let ec = extra_chunks(es);
        assert(ec.drop_last() =~= extra_chunks(es.drop_last()));
        let (k, v) = es.last();
        assert(ec.last() == (k, v, needs_quotes(v)));
        assert(value_text(v) == if needs_quotes(v) {
            quoted(v)
        } else {
            v
        });
        assert(extra_text(es.drop_last()) + " :"@ + k + " "@ + value_text(v) =~= sep_text(
            ec.drop_last(),
        ) + " "@ + chunk(k, v, needs_quotes(v)));
    }
}

#[verifier::rlimit(60)]
proof fn lemma_typed_text(u: IngotView)
    ensures
        sep_text(typed_chunks(u)) == typed_text(u),
{
    reveal_strlit(" ");
    reveal_strlit(":");
    reveal_strlit(" :status ");
    reveal_strlit(" :independent ");
    reveal_strlit(" :grade ");
    reveal_strlit(" :skill ");
    reveal_strlit(" :attempt ");
    reveal_strlit(" :attempt_limit ");
    reveal_strlit(" :escalation ");
    reveal_strlit(" :proof ");
    reveal_strlit(" :description ");
    reveal_strlit("id");
    reveal_strlit("status");
    reveal_strlit("independent");
    reveal_strlit("grade");
    reveal_strlit("skill");
    reveal_strlit("attempt");
    reveal_strlit("attempt_limit");
    reveal_strlit("escalation");
    reveal_strlit("proof");
    reveal_strlit("description");
    let tc = typed_chunks(u);
    let c0 = tc.subrange(0, 0);
    assert(sep_text(c0) == Seq::<char>::empty());
    assert forall|n: int| 0 < n <= 9 implies #[trigger] sep_text(tc.subrange(0, n)) == sep_text(
        tc.subrange(0, n - 1),
    ) + " "@ + chunk(tc[n - 1].0, tc[n - 1].1, tc[n - 1].2) by {
        assert(tc.subrange(0, n).drop_last() =~= tc.subrange(0, n - 1));
    }
    assert(tc.subrange(0, 9) =~= tc);
    let upto1 = sep_text(tc.subrange(0, 1));
    let upto2 = sep_text(tc.subrange(0, 2));
    let upto3 = sep_text(tc.subrange(0, 3));
    let upto4 = sep_text(tc.subrange(0, 4));
    let upto5 = sep_text(tc.subrange(0, 5));
    let upto6 = sep_text(tc.subrange(0, 6));
    let upto7 = sep_text(tc.subrange(0, 7));
    let upto8 = sep_text(tc.subrange(0, 8));
    let upto9 = sep_text(tc.subrange(0, 9));
    assert(upto1 =~= " :status "@ + status_word(u.status));
    assert(upto2 =~= upto1 + " :independent "@ + flag_text(u.solo));
    assert(upto3 =~= upto2 + " :grade "@ + dec_text(u.grade as nat));
    assert(upto4 =~= upto3 + " :skill "@ + skill_word(u.skill));
    assert(upto5 =~= upto4 + " :attempt "@ + dec_text(u.heat as nat));
    assert(upto6 =~= upto5 + " :attempt_limit "@ + dec_text(u.max as nat));
    assert(upto7 =~= upto6 + " :escalation "@ + dec_text(u.smelt as nat));
    assert(upto8 =~= upto7 + " :proof "@ + quoted(u.proof));
    assert(upto9 =~= upto8 + " :description "@ + quoted(u.work));
    assert(upto9 == typed_text(u));
}

/// A record line is its own trimmed text, begins with the record prefix,
/// and holds the id field followed by the other fields.
pub proof fn lemma_line(u: IngotView)
    ensures
        trim(ingot_text(u)) == ingot_text(u),
        starts_with(ingot_text(u), "(unit "@),
        record_inner(ingot_text(u)) == chunk("id"@, u.id, true) + sep_text(
            typed_chunks(u) + extra_chunks(u.extra),
        ),
{
    reveal_strlit("(unit :id ");
    reveal_strlit("(unit ");
    reveal_strlit(")");
    reveal_strlit(":");
    reveal_strlit(" ");
    reveal_strlit("id");
    let t = ingot_text(u);
    lemma_typed_text(u);
    lemma_extra_text(u.extra);
    lemma_sep_concat(typed_chunks(u), extra_chunks(u.extra));
    let body = quoted(u.id) + sep_text(typed_chunks(u)) + sep_text(extra_chunks(u.extra));
    assert(t == "(unit :id "@ + quoted(u.id) + sep_text(typed_chunks(u)) + sep_text(
        extra_chunks(u.extra),
    ) + ")"@);
    assert(t =~= "(unit :id "@ + body + ")"@);
    assert(t[0] == '(');
    assert(t.last() == ')');
    assert(trim_start(t) == t);
    assert(trim_end(t) == t);
    assert(t.subrange(0, 6) =~= "(unit "@);
    assert(ends_with(t, ")"@)) by {
        assert(t.subrange(t.len() - 1, t.len() as int) =~= ")"@);
    }
    assert(record_inner(t) =~= ":"@ + "id"@ + " "@ + body);
    assert(chunk("id"@, u.id, true) + sep_text(typed_chunks(u) + extra_chunks(u.extra)) =~= ":"@
        + "id"@ + " "@ + body);
}

proof fn lemma_chunks_ok(u: IngotView)
    requires
        extras_ok(u.extra),
    ensures
        chunk_ok(("id"@, u.id, true)),
        forall|i: int|
            0 <= i < (typed_chunks(u) + extra_chunks(u.extra)).len() ==> chunk_ok(
                #[trigger] (typed_chunks(u) + extra_chunks(u.extra))[i],
            ),
{
    reveal_strlit("id");
    assert("id"@.len() == 2);
    reveal_strlit("status");
    assert("status"@.len() == 6);
    reveal_strlit("independent");
    assert("independent"@.len() == 11);
    reveal_strlit("grade");
    assert("grade"@.len() == 5);
    reveal_strlit("skill");
    assert("skill"@.len() == 5);
    reveal_strlit("attempt");
    assert("attempt"@.len() == 7);
    reveal_strlit("attempt_limit");
    assert("attempt_limit"@.len() == 13);
    reveal_strlit("escalation");
    assert("escalation"@.len() == 10);
    reveal_strlit("proof");
    assert("proof"@.len() == 5);
    reveal_strlit("description");
    assert("description"@.len() == 11);
    lemma_words();
    lemma_number(u.grade);
    lemma_number(u.heat);
    lemma_number(u.max);
    lemma_number(u.smelt);
    let all = typed_chunks(u) + extra_chunks(u.extra);
    assert forall|i: int| 0 <= i < all.len() implies chunk_ok(#[trigger] all[i]) by {
        if i < 9 {
            assert(all[i] == typed_chunks(u)[i]);
            assert(key_ok(all[i].0));
        } else {
            assert(all[i] == extra_chunks(u.extra)[i - 9]);
            assert(key_ok(u.extra[i - 9].0));
        }
    }
}

proof fn lemma_fields(u: IngotView)
    requires
        extras_ok(u.extra),
    ensures
        fields_of(record_inner(ingot_text(u))) == seq![("id"@, u.id)] + pairs_of(
            typed_chunks(u) + extra_chunks(u.extra),
        ),
{
    reveal_strlit(" ");
    lemma_line(u);
    lemma_chunks_ok(u);
    let all = typed_chunks(u) + extra_chunks(u.extra);
    let c = chunk("id"@, u.id, true);
    let s = c + sep_text(all);
    assert(s == record_inner(ingot_text(u)));
    assert(s.subrange(0, c.len() as int) =~= c);
    lemma_sep_front(all);
    assert(s[c.len() as int] == sep_text(all)[0]);
    lemma_chunk(s, 0, "id"@, u.id, true);
    assert(s.subrange(c.len() as int, s.len() as int) =~= sep_text(all));
    lemma_lex_sep(s, c.len() as int, all);
}

proof fn lemma_lookup_at(fs: Seq<(Seq<char>, Seq<char>)>, key: Seq<char>, i: int)
    requires
        0 <= i < fs.len(),
        fs[i].0 == key,
        forall|j: int| 0 <= j < i ==> (#[trigger] fs[j]).0 != key,
    ensures
        lookup(fs, key) == Some(fs[i].1),
    decreases i,
{
    if i > 0 {
        let d = fs.drop_first();
        assert(fs[0].0 != key);
        assert forall|j: int| 0 <= j < i - 1 implies (#[trigger] d[j]).0 != key by {
            assert(d[j] == fs[j + 1]);
        }
        lemma_lookup_at(d, key, i - 1);
    }
}

proof fn lemma_unknown_none(a: Seq<(Seq<char>, Seq<char>)>)
    requires
        forall|i: int| 0 <= i < a.len() ==> is_known((#[trigger] a[i]).0),
    ensures
        unknown_fields(a) == Seq::<(Seq<char>, Seq<char>)>::empty(),
    decreases a.len(),
{
    if a.len() > 0 {
        assert forall|i: int| 0 <= i < a.drop_last().len() implies is_known(
            (#[trigger] a.drop_last()[i]).0,
        ) by {
            assert(a.drop_last()[i] == a[i]);
        }
        lemma_unknown_none(a.drop_last());
        assert(is_known(a[a.len() - 1].0));
    }
}

proof fn lemma_unknown_tail(a: Seq<(Seq<char>, Seq<char>)>, b: Seq<(Seq<char>, Seq<char>)>)
    requires
        forall|i: int| 0 <= i < a.len() ==> is_known((#[trigger] a[i]).0),
        forall|i: int| 0 <= i < b.len() ==> !is_known((#[trigger] b[i]).0),
    ensures
        unknown_fields(a + b) == b,
    decreases b.len(),
{
    if b.len() == 0 {
        assert(a + b =~= a);
        lemma_unknown_none(a);
        assert(b =~= Seq::<(Seq<char>, Seq<char>)>::empty());
    } else {
        assert forall|i: int| 0 <= i < b.drop_last().len() implies !is_known(
            (#[trigger] b.drop_last()[i]).0,
        ) by {
            assert(b.drop_last()[i] == b[i]);
        }
        lemma_unknown_tail(a, b.drop_last());
        assert((a + b).drop_last() =~= a + b.drop_last());
        assert((a + b).last() == b.last());
        assert(!is_known(b[b.len() - 1].0));
        assert(b.drop_last().push(b.last()) =~= b);
    }
}

/// A unit written as a record line reads back as the same unit, every field
/// and every extra field included, when the extra fields' names hold no
/// whitespace and are not names of known fields.
pub proof fn lemma_round_trip(u: IngotView)
    requires
        extras_ok(u.extra),
    ensures
        ingot_of_line(ingot_text(u)) == Some(u),
{
    reveal_strlit("id");
    assert("id"@.len() == 2);
    reveal_strlit("status");
    assert("status"@.len() == 6);
    reveal_strlit("independent");
    assert("independent"@.len() == 11);
    reveal_strlit("grade");
    assert("grade"@.len() == 5);
    reveal_strlit("skill");
    assert("skill"@.len() == 5);
    reveal_strlit("attempt");
    assert("attempt"@.len() == 7);
    reveal_strlit("attempt_limit");
    assert("attempt_limit"@.len() == 13);
    reveal_strlit("escalation");
    assert("escalation"@.len() == 10);
    reveal_strlit("proof");
    assert("proof"@.len() == 5);
    reveal_strlit("description");
    assert("description"@.len() == 11);
    lemma_line(u);
    lemma_fields(u);
    lemma_words();
    lemma_number(u.grade);
    lemma_number(u.heat);
    lemma_number(u.max);
    lemma_number(u.smelt);
    let tc = typed_chunks(u);
    let ec = extra_chunks(u.extra);
    let head = seq![("id"@, u.id)] + pairs_of(tc);
    let fs = seq![("id"@, u.id)] + pairs_of(tc + ec);
    assert(pairs_of(tc + ec) =~= pairs_of(tc) + pairs_of(ec));
    assert(fs =~= head + pairs_of(ec));
    assert(pairs_of(ec) =~= u.extra);
    assert(head.len() == 10);
    assert(head[0] == ("id"@, u.id));
    assert(head[1] == ("status"@, status_word(u.status)));
    assert(head[2] == ("independent"@, flag_text(u.solo)));
    assert(head[3] == ("grade"@, dec_text(u.grade as nat)));
    assert(head[4] == ("skill"@, skill_word(u.skill)));
    assert(head[5] == ("attempt"@, dec_text(u.heat as nat)));
    assert(head[6] == ("attempt_limit"@, dec_text(u.max as nat)));
    assert(head[7] == ("escalation"@, dec_text(u.smelt as nat)));
    assert(head[8] == ("proof"@, u.proof));
    assert(head[9] == ("description"@, u.work));
    assert forall|j: int| 0 <= j < 10 implies fs[j] == #[trigger] head[j] by {}
    assert("independent"@[0] != "attempt"@[0] && "independent"@[0] != "description"@[0] && "attempt"@[0] != "description"@[0]);
    assert("grade"@[0] != "skill"@[0] && "grade"@[0] != "escalation"@[0] && "grade"@[0] != "proof"@[0]);
    assert("skill"@[1] != "escalation"@[1] && "skill"@[0] != "proof"@[0] && "escalation"@[0] != "proof"@[0]);
    assert("independent"@ != "attempt"@ && "independent"@ != "description"@ && "attempt"@ != "description"@);
    assert("grade"@ != "skill"@ && "grade"@ != "escalation"@ && "grade"@ != "proof"@);
    assert("skill"@ != "escalation"@ && "skill"@ != "proof"@ && "escalation"@ != "proof"@);
    lemma_lookup_at(fs, "id"@, 0);
    lemma_lookup_at(fs, "status"@, 1);
    lemma_lookup_at(fs, "independent"@, 2);
    lemma_lookup_at(fs, "grade"@, 3);
    lemma_lookup_at(fs, "skill"@, 4);
    lemma_lookup_at(fs, "attempt"@, 5);
    lemma_lookup_at(fs, "attempt_limit"@, 6);
    lemma_lookup_at(fs, "escalation"@, 7);
    lemma_lookup_at(fs, "proof"@, 8);
    lemma_lookup_at(fs, "description"@, 9);
    assert forall|i: int| 0 <= i < head.len() implies is_known((#[trigger] head[i]).0) by {}
    assert forall|i: int| 0 <= i < u.extra.len() implies !is_known((#[trigger] u.extra[i]).0) by {}
    lemma_unknown_tail(head, u.extra);
    let t = ingot_text(u);
    assert(trim(t) == t);
    assert(fields_of(record_inner(trim(t))) == fs);
}

} // verus!
