//! The agent ("smith"): what the orchestrator needs to know of its replies
//! and commands, and a scripted agent for deterministic runs.

use vstd::prelude::*;
use vstd::string::*;
use crate::config::SmithConfig;
use crate::error::SlagError;
use crate::text::{chars_of, ends_with, lines, slice_of, split_lines, starts_with, string_of, trim, trimmed, views, has_prefix, has_suffix};

verus! {

pub open spec fn asks(t: Seq<char>) -> bool {
    ends_with(t, "?"@) || starts_with(t, "**Question"@) || starts_with(t, "Question"@)
        || starts_with(t, "Which "@) || starts_with(t, "What "@) || starts_with(t, "Should "@)
        || starts_with(t, "Do you "@) || starts_with(t, "Would you "@) || starts_with(
        t,
        "Can you "@,
    ) || starts_with(t, "Could you "@)
}

/// Whether some line, trimmed, is a question: it ends with `?` or opens
/// like one.
pub open spec fn questions_in(text: Seq<char>) -> bool {
    exists|i: int| 0 <= i < lines(text).len() && asks(trim(#[trigger] lines(text)[i]))
}

fn opens_with(t: &Vec<char>, lit: &str) -> (r: bool)
    ensures
        r == starts_with(t@, lit@),
{
    let p = chars_of(lit);
    has_prefix(t, &p)
}

/// Whether a reply still asks questions.
pub fn has_questions(text: &str) -> (r: bool)
    ensures
        r == questions_in(text@),
{
    let v = chars_of(text);
    let ls = split_lines(&v);
    let ghost lv = views(ls@);
    let mut i: usize = 0;
    while i < ls.len()
        invariant
            0 <= i <= ls.len(),
            lv == views(ls@),
            lv == lines(text@),
            forall|j: int| 0 <= j < i ==> !asks(trim(#[trigger] lv[j])),
        decreases ls.len() - i,
    {
        assert(lv[i as int] == ls@[i as int]@);
        let t = trimmed(&ls[i]);
        let q = chars_of("?");
        if has_suffix(&t, &q) || opens_with(&t, "**Question") || opens_with(&t, "Question")
            || opens_with(&t, "Which ") || opens_with(&t, "What ") || opens_with(&t, "Should ")
            || opens_with(&t, "Do you ") || opens_with(&t, "Would you ") || opens_with(
            &t,
            "Can you ",
        ) || opens_with(&t, "Could you ") {
            return true;
        }
        i += 1;
    }
    false
}

/// Word splitter state: between words, or in a single-quoted, double-quoted
/// or bare word begun at an index.
pub enum Split {
    Between,
    Single(int),
    Double(int),
    Plain(int),
}

pub open spec fn split_step(s: Seq<char>, i: int, st: Split) -> (Split, Seq<Seq<char>>) {
    let c = s[i];
    match st {
        Split::Between => if c == ' ' {
            (Split::Between, seq![])
        } else if c == '\'' {
            (Split::Single(i + 1), seq![])
        } else if c == '"' {
            (Split::Double(i + 1), seq![])
        } else {
            (Split::Plain(i), seq![])
        },
        Split::Single(b) => if c == '\'' {
            (Split::Between, seq![s.subrange(b, i)])
        } else {
            (Split::Single(b), seq![])
        },
        Split::Double(b) => if c == '"' {
            (Split::Between, seq![s.subrange(b, i)])
        } else {
            (Split::Double(b), seq![])
        },
        Split::Plain(b) => if c == ' ' {
            (Split::Between, seq![s.subrange(b, i)])
        } else {
            (Split::Plain(b), seq![])
        },
    }
}

pub open spec fn split_finish(s: Seq<char>, st: Split) -> Seq<Seq<char>> {
    match st {
        Split::Between => seq![],
        Split::Single(b) => seq![s.subrange(b, s.len() as int)],
        Split::Double(b) => seq![s.subrange(b, s.len() as int)],
        Split::Plain(b) => seq![s.subrange(b, s.len() as int)],
    }
}

pub open spec fn split_from(s: Seq<char>, i: int, st: Split) -> Seq<Seq<char>>
    decreases s.len() - i,
{
    if i < 0 || i >= s.len() {
        split_finish(s, st)
    } else {
        let (n, e) = split_step(s, i, st);
        e + split_from(s, i + 1, n)
    }
}

/// Words of a command line: split at spaces, a single- or double-quoted
/// span being one word without its quotes; an unclosed quote runs to the end.
pub open spec fn shell_split(s: Seq<char>) -> Seq<Seq<char>> {
    split_from(s, 0, Split::Between)
}

enum SplitState {
    Between,
    Single(usize),
    Double(usize),
    Plain(usize),
}

impl SplitState {
    spec fn split(&self) -> Split {
        match self {
            SplitState::Between => Split::Between,
            SplitState::Single(b) => Split::Single(*b as int),
            SplitState::Double(b) => Split::Double(*b as int),
            SplitState::Plain(b) => Split::Plain(*b as int),
        }
    }

    spec fn starts_by(&self, i: int) -> bool {
        match self {
            SplitState::Between => true,
            SplitState::Single(b) => *b <= i,
            SplitState::Double(b) => *b <= i,
            SplitState::Plain(b) => *b <= i,
        }
    }
}

/// Splits a command line into words (see `shell_split`).
pub fn shell_words(s: &str) -> (r: Vec<String>)
    ensures
        crate::crucible::string_views(r@) == shell_split(s@),
{
    let v = chars_of(s);
    let mut out: Vec<String> = Vec::new();
    let mut st = SplitState::Between;
    let mut i: usize = 0;
    while i < v.len()
        invariant
            0 <= i <= v.len(),
            v@ == s@,
            st.starts_by(i as int),
            shell_split(s@) == crate::crucible::string_views(out@) + split_from(v@, i as int, st.split()),
        decreases v.len() - i,
    {
        let c = v[i];
        let ghost before = crate::crucible::string_views(out@);
        let ghost step = split_step(v@, i as int, st.split());
        let mut word: Option<usize> = None;
        st = match st {
            SplitState::Between => if c == ' ' {
                SplitState::Between
            } else if c == '\'' {
                SplitState::Single(i + 1)
            } else if c == '"' {
                SplitState::Double(i + 1)
            } else {
                SplitState::Plain(i)
            },
            SplitState::Single(b) => if c == '\'' {
                word = Some(b);
                SplitState::Between
            } else {
                SplitState::Single(b)
            },
            SplitState::Double(b) => if c == '"' {
                word = Some(b);
                SplitState::Between
            } else {
                SplitState::Double(b)
            },
            SplitState::Plain(b) => if c == ' ' {
                word = Some(b);
                SplitState::Between
            } else {
                SplitState::Plain(b)
            },
        };
        match word {
            Some(b) => {
                let w = string_of(&slice_of(&v, b, i));
                out.push(w);
                assert(crate::crucible::string_views(out@) =~= before.push(w@));
                assert(step.1 == seq![w@]);
            },
            None => {
                assert(step.1 == Seq::<Seq<char>>::empty());
                assert(crate::crucible::string_views(out@) =~= before + step.1);
            },
        }
        assert(st.split() == step.0);
        assert(before + (step.1 + split_from(v@, i + 1, step.0)) =~= (before + step.1) + split_from(v@, i + 1, step.0));
        i += 1;
    }
    let ghost before = crate::crucible::string_views(out@);
    match st {
        SplitState::Between => {
            assert(before + seq![] =~= before);
        },
        SplitState::Single(b) | SplitState::Double(b) | SplitState::Plain(b) => {
            let w = string_of(&slice_of(&v, b, v.len()));
            out.push(w);
            assert(crate::crucible::string_views(out@) =~= before.push(w@));
            assert(before + seq![w@] =~= before.push(w@));
        },
    }
    out
}

/// The follow-up that asks an agent to settle its own questions.
pub open spec fn self_query_text(raw: Seq<char>) -> Seq<char> {
    raw + SELF_QUERY@
}

pub const SELF_QUERY: &'static str = "\n\n---\n[SELF-QUERY RESOLUTION]\nYou asked questions above. You are the expert. Answer them yourself:\n- Make decisive choices based on best practices\n- Choose the most sensible option when uncertain\n- Do not ask for clarification - decide and proceed\n\nNow output the COMPLETE deliverable with all decisions made.\nNO QUESTIONS. NO PREAMBLE. Just the final output.";

pub fn self_query_prompt(raw: &str) -> (r: String)
    ensures
        r@ == self_query_text(raw@),
{
    let mut s = raw.to_string();
    s.append(SELF_QUERY);
    s
}

/// Whether another round of self-answering is due: the reply asks and
/// rounds are left.
pub fn wants_self_query(raw: &str, rounds: usize, max_rounds: usize) -> (r: bool)
    ensures
        r == (questions_in(raw@) && rounds < max_rounds),
{
    rounds < max_rounds && has_questions(raw)
}

/// A scripted agent: answers with its responses in turn, cycling; with none
/// it fails every call. Calls are counted either way.
pub struct MockSmith {
    responses: Vec<String>,
    calls: usize,
}

impl MockSmith {
    pub closed spec fn replies(&self) -> Seq<Seq<char>> {
        crate::crucible::string_views(self.responses@)
    }

    pub closed spec fn count(&self) -> nat {
        self.calls as nat
    }

    pub fn new(responses: Vec<String>) -> (r: MockSmith)
        ensures
            r.replies() == crate::crucible::string_views(responses@),
            r.count() == 0,
    {
        MockSmith { responses, calls: 0 }
    }

    pub fn fixed(response: &str) -> (r: MockSmith)
        ensures
            r.replies() == seq![response@],
            r.count() == 0,
    {
        let mut v: Vec<String> = Vec::new();
        v.push(response.to_string());
        let r = MockSmith::new(v);
        assert(crate::crucible::string_views(v@) =~= seq![response@]);
        r
    }

    pub fn failing() -> (r: MockSmith)
        ensures
            r.replies().len() == 0,
            r.count() == 0,
    {
        MockSmith::new(Vec::new())
    }

    pub fn call_count(&self) -> (r: usize)
        ensures
            r == self.count(),
    {
        self.calls
    }

    /// The next scripted reply: the one at the call count, cycling.
    pub fn invoke(&mut self, prompt: &str) -> (r: Result<String, SlagError>)
        requires
            old(self).count() < usize::MAX,
        ensures
            final(self).replies() == old(self).replies(),
            final(self).count() == old(self).count() + 1,
            old(self).replies().len() == 0 ==> r is Err,
            old(self).replies().len() > 0 ==> (r matches Ok(t) && t@ == old(self).replies()[(
            old(self).count() % old(self).replies().len()) as int]),
    {
        let idx = self.calls;
        self.calls = self.calls + 1;
        if self.responses.len() == 0 {
            return Err(SlagError::SmithFailed("mock smith: no responses".to_string()));
        }
        let t = self.responses[idx % self.responses.len()].clone();
        assert(crate::crucible::string_views(self.responses@)[(idx % self.responses.len()) as int]
            == self.responses@[(idx % self.responses.len()) as int]@);
        Ok(t)
    }
}

/// The agent as a command line run as a subprocess.
pub struct ClaudeSmith {
    command: String,
}

impl ClaudeSmith {
    pub closed spec fn command_text(&self) -> Seq<char> {
        self.command@
    }

    pub fn new(command: String) -> (r: ClaudeSmith)
        ensures
            r.command_text() == command@,
    {
        ClaudeSmith { command }
    }

    /// The command for a unit of this skill and grade.
    pub fn from_config(config: &SmithConfig, skill: &str, grade: u8) -> (r: ClaudeSmith)
        ensures
            r.command_text() == config.select_spec(skill@, grade),
    {
        ClaudeSmith { command: config.select(skill, grade).to_string() }
    }

    /// The planning agent.
    pub fn plan(config: &SmithConfig) -> (r: ClaudeSmith)
        ensures
            r.command_text() == config.plan@,
    {
        ClaudeSmith { command: config.plan.clone() }
    }

    /// The base agent.
    pub fn base(config: &SmithConfig) -> (r: ClaudeSmith)
        ensures
            r.command_text() == config.base@,
    {
        ClaudeSmith { command: config.base.clone() }
    }

    pub fn command(&self) -> (r: &str)
        ensures
            r@ == self.command_text(),
    {
        self.command.as_str()
    }
}

} // verus!
