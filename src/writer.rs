//! Writing unit records back as text.

use vstd::prelude::*;
use vstd::string::*;
use crate::sexp::{Ingot, IngotView, pair_views, skill_word, status_word};
use crate::text::{is_ws, push_char, is_whitespace};

verus! {

/// The characters a quoted value is written with: `"` and `\` each get a
/// backslash before them.
pub open spec fn escape_char(c: char) -> Seq<char> {
    if c == '"' || c == '\\' {
        seq!['\\', c]
    } else {
        seq![c]
    }
}

pub open spec fn escaped(s: Seq<char>) -> Seq<char>
    decreases s.len(),
{
    if s.len() == 0 {
        seq![]
    } else {
        escaped(s.drop_last()) + escape_char(s.last())
    }
}

pub open spec fn quoted(s: Seq<char>) -> Seq<char> {
    seq!['"'] + escaped(s) + seq!['"']
}

/// A value that cannot be written bare: empty, or holding whitespace, a
/// quote, a closing parenthesis or a backslash.
pub open spec fn needs_quotes(v: Seq<char>) -> bool {
    v.len() == 0 || exists|i: int|
        0 <= i < v.len() && (is_ws(#[trigger] v[i]) || v[i] == '"' || v[i] == ')' || v[i] == '\\')
}

pub open spec fn value_text(v: Seq<char>) -> Seq<char> {
    if needs_quotes(v) {
        quoted(v)
    } else {
        v
    }
}

pub open spec fn extra_text(es: Seq<(Seq<char>, Seq<char>)>) -> Seq<char>
    decreases es.len(),
{
    if es.len() == 0 {
        seq![]
    } else {
        extra_text(es.drop_last()) + " :"@ + es.last().0 + " "@ + value_text(es.last().1)
    }
}

pub open spec fn digit_char(d: nat) -> char {
    ((d % 10 + 48) as u8) as char
}

/// Decimal digits of `n`, without leading zeros.
pub open spec fn dec_text(n: nat) -> Seq<char>
    decreases n,
{
    if n < 10 {
        seq![digit_char(n)]
    } else {
        dec_text(n / 10).push(digit_char(n % 10))
    }
}

pub open spec fn flag_text(b: bool) -> Seq<char> {
    if b {
        "t"@
    } else {
        "nil"@
    }
}

/// The typed fields after the id, as written.
pub open spec fn typed_text(u: IngotView) -> Seq<char> {
    " :status "@ + status_word(u.status) + " :independent "@ + flag_text(u.solo) + " :grade "@ + dec_text(
        u.grade as nat,
    ) + " :skill "@ + skill_word(u.skill) + " :attempt "@ + dec_text(u.heat as nat) + " :attempt_limit "@
        + dec_text(u.max as nat) + " :escalation "@ + dec_text(u.smelt as nat) + " :proof "@ + quoted(
        u.proof,
    ) + " :description "@ + quoted(u.work)
}

/// The record line of a unit, without a line ending.
pub open spec fn ingot_text(u: IngotView) -> Seq<char> {
    "(unit :id "@ + quoted(u.id) + typed_text(u) + extra_text(u.extra) + ")"@
}

/// Appends the decimal digits of `n`.
pub fn push_decimal(s: &mut String, n: u64)
    ensures
        final(s)@ == old(s)@ + dec_text(n as nat),
    decreases n,
{
    if n >= 10 {
        push_decimal(s, n / 10);
    }
    let d = (n % 10) as u8 + 48;
    push_char(s, d as char);
    assert(digit_char(n as nat) == d as char);
    proof {
        if n >= 10 {
            assert(digit_char((n % 10) as nat) == d as char);
        }
    }
}

fn push_escaped(s: &mut String, v: &String)
    ensures
        final(s)@ == old(s)@ + escaped(v@),
{
    let cs = crate::text::chars_of(v.as_str());
    let mut i: usize = 0;
    while i < cs.len()
        invariant
            0 <= i <= cs.len(),
            cs@ == v@,
            s@ == old(s)@ + escaped(cs@.subrange(0, i as int)),
        decreases cs.len() - i,
    {
        let c = cs[i];
        let ghost pre = cs@.subrange(0, i as int);
        let ghost nxt = cs@.subrange(0, i + 1);
        assert(nxt.drop_last() =~= pre);
        if c == '"' || c == '\\' {
            push_char(s, '\\');
        }
        push_char(s, c);
        assert(s@ =~= old(s)@ + escaped(nxt));
        i += 1;
    }
    assert(cs@.subrange(0, cs.len() as int) =~= v@);
}

fn push_quoted(s: &mut String, v: &String)
    ensures
        final(s)@ == old(s)@ + quoted(v@),
{
    push_char(s, '"');
    push_escaped(s, v);
    push_char(s, '"');
    assert(s@ =~= old(s)@ + quoted(v@));
}

pub fn value_needs_quotes(v: &String) -> (r: bool)
    ensures
        r == needs_quotes(v@),
{
    let cs = crate::text::chars_of(v.as_str());
    if cs.len() == 0 {
        return true;
    }
    let mut i: usize = 0;
    while i < cs.len()
        invariant
            0 <= i <= cs.len(),
            cs@ == v@,
            forall|j: int|
                0 <= j < i ==> !(is_ws(#[trigger] cs@[j]) || cs@[j] == '"' || cs@[j] == ')'
                    || cs@[j] == '\\'),
        decreases cs.len() - i,
    {
        let c = cs[i];
        if is_whitespace(c) || c == '"' || c == ')' || c == '\\' {
            return true;
        }
        i += 1;
    }
    false
}

fn typed_part(ingot: &Ingot) -> (r: String)
    ensures
        r@ == typed_text(ingot@),
{
    let mut s = String::new();
    s.append(" :status ");
    s.append(ingot.status.as_str());
    s.append(" :independent ");
    s.append(
        if ingot.solo {
            "t"
        } else {
            "nil"
        },
    );
    s.append(" :grade ");
    push_decimal(&mut s, ingot.grade as u64);
    s.append(" :skill ");
    s.append(ingot.skill.as_str());
    s.append(" :attempt ");
    push_decimal(&mut s, ingot.heat as u64);
    s.append(" :attempt_limit ");
    push_decimal(&mut s, ingot.max as u64);
    s.append(" :escalation ");
    push_decimal(&mut s, ingot.smelt as u64);
    s.append(" :proof ");
    push_quoted(&mut s, &ingot.proof);
    s.append(" :description ");
    push_quoted(&mut s, &ingot.work);
    assert(s@ =~= typed_text(ingot@));
    s
}

/// Serialises a unit as its record line.
pub fn write_ingot(ingot: &Ingot) -> (r: String)
    ensures
        r@ == ingot_text(ingot@),
{
    let mut s = String::new();
    s.append("(unit :id ");
    push_quoted(&mut s, &ingot.id);
    let typed = typed_part(ingot);
    s.append(typed.as_str());
    let ghost head = s@;
    let mut i: usize = 0;
    while i < ingot.extra.len()
        invariant
            0 <= i <= ingot.extra.len(),
            s@ == head + extra_text(pair_views(ingot.extra@).subrange(0, i as int)),
        decreases ingot.extra.len() - i,
    {
        let ghost pre = pair_views(ingot.extra@).subrange(0, i as int);
        let ghost nxt = pair_views(ingot.extra@).subrange(0, i + 1);
        assert(nxt.drop_last() =~= pre);
        let key = &ingot.extra[i].0;
        let value = &ingot.extra[i].1;
        assert(nxt.last() == (key@, value@));
        let ghost before = s@;
        s.append(" :");
        s.append(key.as_str());
        s.append(" ");
        if value_needs_quotes(value) {
            push_quoted(&mut s, value);
        } else {
            s.append(value.as_str());
        }
        assert(s@ =~= before + " :"@ + key@ + " "@ + value_text(value@));
        i += 1;
    }
    assert(pair_views(ingot.extra@).subrange(0, ingot.extra.len() as int) =~= pair_views(
        ingot.extra@,
    ));
    s.append(")");
    s
}

} // verus!
