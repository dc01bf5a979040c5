//! The command line, as plain values.

use vstd::prelude::*;
use vstd::string::*;

verus! {

/// What to do besides running a commission.
#[derive(Debug, Clone, Copy, PartialEq, Eq, Structural)]
pub enum Command {
    /// Show the ledger.
    Status,
    /// Go on with the ledger on disk.
    Resume,
    /// Replace the program by its latest release.
    Update,
}

/// Parsed command-line arguments.
#[derive(Debug, Clone)]
pub struct Cli {
    pub command: Option<Command>,
    /// The commission, word by word.
    pub commission: Vec<String>,
    pub worktree: bool,
    pub anvils: usize,
    pub skip_review: bool,
    pub keep_branches: bool,
    pub ci_only: bool,
    pub review_all: bool,
    pub retry: usize,
}

/// Texts joined by a separator.
pub open spec fn joined_with(ws: Seq<Seq<char>>, sep: Seq<char>) -> Seq<char>
    decreases ws.len(),
{
    if ws.len() == 0 {
        seq![]
    } else if ws.len() == 1 {
        ws[0]
    } else {
        joined_with(ws.drop_last(), sep) + sep + ws.last()
    }
}

/// Words joined by single spaces.
pub open spec fn joined(ws: Seq<Seq<char>>) -> Seq<char> {
    joined_with(ws, " "@)
}

/// Joins strings with a separator.
pub fn join_strings(ws: &Vec<String>, sep: &str) -> (r: String)
    ensures
        r@ == joined_with(crate::crucible::string_views(ws@), sep@),
{
    let ghost v = crate::crucible::string_views(ws@);
    let mut s = String::new();
    let mut i: usize = 0;
    while i < ws.len()
        invariant
            0 <= i <= ws.len(),
            v == crate::crucible::string_views(ws@),
            s@ == joined_with(v.subrange(0, i as int), sep@),
        decreases ws.len() - i,
    {
        let ghost nxt = v.subrange(0, i + 1);
        assert(nxt.drop_last() =~= v.subrange(0, i as int));
        assert(nxt.last() == ws@[i as int]@);
        if i > 0 {
            s.append(sep);
        } else {
            assert(Seq::<char>::empty() + ws@[0]@ =~= ws@[0]@);
        }
        s.append(ws[i].as_str());
        i += 1;
    }
    assert(v.subrange(0, ws.len() as int) =~= v);
    s
}

impl Cli {
    /// The commission as one text; none when no words were given.
    pub fn commission_text(&self) -> (r: Option<String>)
        ensures
            self.commission.len() == 0 ==> r is None,
            self.commission.len() > 0 ==> (r matches Some(t) && t@ == joined(
                crate::crucible::string_views(self.commission@),
            )),
    {
        if self.commission.len() == 0 {
            return None;
        }
        Some(join_strings(&self.commission, " "))
    }
}

} // verus!
