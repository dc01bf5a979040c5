//! The directive an agent ends its reply with: a line `COMMAND: <command>`.

use vstd::prelude::*;
use vstd::string::*;
use crate::error::SlagError;
use crate::text::{chars_of, has_prefix, lines, slice_of, split_lines, starts_with, string_of, trim, trim_bounds, views};

verus! {

/// The command of the last line that begins with `COMMAND:`, trimmed.
pub open spec fn last_cmd(ls: Seq<Seq<char>>) -> Option<Seq<char>>
    decreases ls.len(),
{
    if ls.len() == 0 {
        None
    } else if starts_with(ls.last(), "COMMAND:"@) {
        Some(trim(ls.last().subrange(8, ls.last().len() as int)))
    } else {
        last_cmd(ls.drop_last())
    }
}

pub open spec fn cmd_of(response: Seq<char>) -> Option<Seq<char>> {
    last_cmd(lines(response))
}

/// Extracts the command from an agent's reply: the last `COMMAND:` line wins;
/// `None` when there is none.
pub fn extract_cmd(response: &str) -> (r: Option<String>)
    ensures
        match r {
            Some(c) => cmd_of(response@) == Some(c@),
            None => cmd_of(response@) is None,
        },
{
    let v = chars_of(response);
    let ls = split_lines(&v);
    let ghost lv = views(ls@);
    let head = chars_of("COMMAND:");
    proof {
        reveal_strlit("COMMAND:");
    }
    let mut i = ls.len();
    assert(lv.subrange(0, i as int) =~= lv);
    while i > 0
        invariant
            0 <= i <= ls.len(),
            lv == views(ls@),
            lv == lines(v@),
            v@ == response@,
            head@ == "COMMAND:"@,
            head@.len() == 8,
            last_cmd(lv) == last_cmd(lv.subrange(0, i as int)),
        decreases i,
    {
        let ghost cur = lv.subrange(0, i as int);
        assert(cur.last() == ls@[i - 1]@);
        assert(cur.drop_last() =~= lv.subrange(0, i - 1));
        let line = &ls[i - 1];
        if has_prefix(line, &head) {
            let (a, b) = trim_bounds(line, 8, line.len());
            return Some(string_of(&slice_of(line, a, b)));
        }
        i -= 1;
    }
    None
}

/// A proof that needs no run: empty, or the command `true`.
pub fn proof_is_trivial(proof: &str) -> (r: bool)
    ensures
        r == (proof@.len() == 0 || proof@ == "true"@),
{
    proof.unicode_len() == 0 || proof.to_string() == "true".to_string()
}

/// The verdict on a unit's proof from its run: passed, or a proof failure
/// carrying the run's output.
pub fn proof_result(id: &str, passed: bool, output: String) -> (r: Result<(), SlagError>)
    ensures
        passed ==> r is Ok,
        !passed ==> (r matches Err(SlagError::ProofFailed { id: i, reason }) && i@ == id@
            && reason@ == output@),
{
    if passed {
        Ok(())
    } else {
        Err(SlagError::ProofFailed { id: id.to_string(), reason: output })
    }
}

} // verus!
