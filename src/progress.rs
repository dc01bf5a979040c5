//! Changelog entries for completed units.

use vstd::prelude::*;
use vstd::string::*;
use crate::cli::joined_with;
use crate::crucible::string_views;
use crate::sexp::{Ingot, skill_word};
use crate::writer::{dec_text, push_decimal};

verus! {

/// What the changelog records of a completed unit.
pub struct ProgressEntry<'a> {
    pub ingot: &'a Ingot,
    pub heat: u8,
    pub files_changed: Vec<String>,
    pub learnings: Option<String>,
}

/// The entry's text under a time stamp: a heading with id, grade and skill,
/// the work, the attempts used, then the changed files and what was learned
/// when there are any.
pub open spec fn entry_text(e: ProgressEntry, stamp: Seq<char>) -> Seq<char> {
    "\n## "@ + stamp + " ["@ + e.ingot.id@ + "] gr:"@ + dec_text(e.ingot.grade as nat) + " skill:"@
        + skill_word(e.ingot.skill) + "\n- "@ + e.ingot.work@ + "\n- heats: "@ + dec_text(
        e.heat as nat,
    ) + "\n"@ + (if e.files_changed.len() > 0 {
        "- files: "@ + joined_with(string_views(e.files_changed@), ", "@) + "\n"@
    } else {
        seq![]
    }) + match e.learnings {
        Some(l) => "- learned: "@ + l@ + "\n"@,
        None => seq![],
    }
}

impl<'a> ProgressEntry<'a> {
    /// Renders the entry under a time stamp.
    pub fn render(&self, stamp: &str) -> (r: String)
        ensures
            r@ == entry_text(*self, stamp@),
    {
        let mut s = String::new();
        s.append("\n## ");
        s.append(stamp);
        s.append(" [");
        s.append(self.ingot.id.as_str());
        s.append("] gr:");
        push_decimal(&mut s, self.ingot.grade as u64);
        s.append(" skill:");
        s.append(self.ingot.skill.as_str());
        s.append("\n- ");
        s.append(self.ingot.work.as_str());
        s.append("\n- heats: ");
        push_decimal(&mut s, self.heat as u64);
        s.append("\n");
        let ghost head = s@;
        if self.files_changed.len() > 0 {
            s.append("- files: ");
            let files = crate::cli::join_strings(&self.files_changed, ", ");
            s.append(files.as_str());
            s.append("\n");
        }
        let ghost mid = s@;
        match &self.learnings {
            Some(l) => {
                s.append("- learned: ");
                s.append(l.as_str());
                s.append("\n");
            },
            None => {},
        }
        proof {
            reveal_strlit("");
        }
        assert(s@ =~= entry_text(*self, stamp@));
        s
    }
}

} // verus!
