//! Text helpers for the terminal display.

use vstd::prelude::*;
use vstd::string::*;
use crate::text::{chars_of, push_chars, slice_of};
use crate::writer::{dec_text, push_decimal};

verus! {

/// Bytes a character takes in UTF-8.
pub open spec fn utf8_len(c: char) -> nat {
    let u = c as u32;
    if u < 0x80 {
        1
    } else if u < 0x800 {
        2
    } else if u < 0x10000 {
        3
    } else {
        4
    }
}

/// Bytes a text takes in UTF-8.
pub open spec fn byte_len(s: Seq<char>) -> nat
    decreases s.len(),
{
    if s.len() == 0 {
        0
    } else {
        byte_len(s.drop_last()) + utf8_len(s.last())
    }
}

/// The first `k` characters are the longest prefix of at most `max` bytes.
pub open spec fn cut_at(s: Seq<char>, max: nat, k: int) -> bool {
    0 <= k < s.len() && byte_len(s.subrange(0, k)) <= max && byte_len(s.subrange(0, k + 1)) > max
}

pub proof fn lemma_prefix_bytes(s: Seq<char>, j: int)
    requires
        0 <= j <= s.len(),
    ensures
        byte_len(s.subrange(0, j)) <= byte_len(s),
    decreases s.len() - j,
{
    if j < s.len() {
        lemma_prefix_bytes(s, j + 1);
        assert(s.subrange(0, j + 1).drop_last() =~= s.subrange(0, j));
    } else {
        assert(s.subrange(0, j) =~= s);
    }
}

fn char_bytes(c: char) -> (r: usize)
    ensures
        r == utf8_len(c),
{
    let u = c as u32;
    if u < 0x80 {
        1
    } else if u < 0x800 {
        2
    } else if u < 0x10000 {
        3
    } else {
        4
    }
}

/// A text over `max` bytes cut to its longest prefix of whole characters
/// within `max` bytes, with an ellipsis; a shorter text unchanged.
pub fn truncate(s: &str, max: usize) -> (r: String)
    ensures
        byte_len(s@) <= max ==> r@ == s@,
        byte_len(s@) > max ==> exists|k: int| cut_at(s@, max as nat, k) && r@ == s@.subrange(0, k) + "..."@,
{
    let v = chars_of(s);
    let mut bytes: usize = 0;
    let mut i: usize = 0;
    assert(v@.subrange(0, 0) =~= Seq::<char>::empty());
    while i < v.len()
        invariant
            0 <= i <= v.len(),
            v@ == s@,
            bytes == byte_len(v@.subrange(0, i as int)),
            bytes <= max,
        decreases v.len() - i,
    {
        let w = char_bytes(v[i]);
        assert(v@.subrange(0, i + 1).drop_last() =~= v@.subrange(0, i as int));
        if w > max - bytes {
            proof {
                lemma_prefix_bytes(v@, i + 1);
            }
            let mut r = String::new();
            push_chars(&mut r, &slice_of(&v, 0, i));
            r.append("...");
            assert(cut_at(s@, max as nat, i as int));
            return r;
        }
        bytes = bytes + w;
        i += 1;
    }
    assert(v@.subrange(0, v.len() as int) =~= v@);
    s.to_string()
}

/// One cell per allowed attempt: filled for those used.
pub open spec fn heat_cells(current: nat, k: nat) -> Seq<char>
    decreases k,
{
    if k == 0 {
        seq![]
    } else {
        heat_cells(current, (k - 1) as nat).push(
            if k <= current {
                '▪'
            } else {
                '▫'
            },
        )
    }
}

/// A bar like `[▪▪▫▫▫]`.
pub fn heat_bar(current: u8, max: u8) -> (r: String)
    ensures
        r@ == seq!['['] + heat_cells(current as nat, max as nat) + seq![']'],
{
    let mut bar = String::new();
    crate::text::push_char(&mut bar, '[');
    let mut i: u16 = 1;
    while i <= max as u16
        invariant
            1 <= i <= max as u16 + 1,
            bar@ == seq!['['] + heat_cells(current as nat, (i - 1) as nat),
        decreases max as u16 + 1 - i,
    {
        if i <= current as u16 {
            crate::text::push_char(&mut bar, '▪');
        } else {
            crate::text::push_char(&mut bar, '▫');
        }
        assert(bar@ =~= seq!['['] + heat_cells(current as nat, i as nat));
        i += 1;
    }
    crate::text::push_char(&mut bar, ']');
    bar
}

pub open spec fn two_digits(n: nat) -> Seq<char> {
    if n < 10 {
        seq!['0'] + dec_text(n)
    } else {
        dec_text(n)
    }
}

/// Elapsed time as `XmYYs`, or `Xs` under a minute.
pub open spec fn elapsed_text(secs: nat) -> Seq<char> {
    if secs / 60 > 0 {
        dec_text(secs / 60) + "m"@ + two_digits(secs % 60) + "s"@
    } else {
        dec_text(secs) + "s"@
    }
}

pub fn format_elapsed(secs: u64) -> (r: String)
    ensures
        r@ == elapsed_text(secs as nat),
{
    let mins = secs / 60;
    let rest = secs % 60;
    let mut s = String::new();
    if mins > 0 {
        push_decimal(&mut s, mins);
        s.append("m");
        if rest < 10 {
            crate::text::push_char(&mut s, '0');
        }
        push_decimal(&mut s, rest);
        s.append("s");
        assert(s@ =~= elapsed_text(secs as nat));
    } else {
        push_decimal(&mut s, secs);
        s.append("s");
    }
    s
}

} // verus!
