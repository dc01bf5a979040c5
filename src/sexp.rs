//! The work unit ("ingot"), its status and skill, and their textual tokens.

use vstd::prelude::*;

verus! {

/// Where a unit stands: queued, being worked, done, or failed.
#[derive(Clone, Copy, Debug, PartialEq, Eq, Structural)]
pub enum Status {
    Ore,
    Molten,
    Forged,
    Cracked,
}

/// The agent tool profile that handles a unit.
#[derive(Clone, Copy, Debug, PartialEq, Eq, Structural)]
pub enum Skill {
    Web,
    Api,
    Cli,
    Default,
}

/// Grade from which a unit counts as complex.
pub const HIGH_GRADE: u8 = 3;

/// One unit of work.
#[derive(Clone, Debug)]
pub struct Ingot {
    pub id: String,
    pub status: Status,
    /// No unresolved dependency: eligible for parallel dispatch.
    pub solo: bool,
    pub grade: u8,
    pub skill: Skill,
    /// Attempts consumed so far.
    pub heat: u8,
    /// Attempts allowed.
    pub max: u8,
    /// Recovery tier already applied.
    pub smelt: u8,
    /// Shell command whose success marks the unit done.
    pub proof: String,
    /// What the unit is to do.
    pub work: String,
    /// Unrecognised fields, kept in order for forward compatibility.
    pub extra: Vec<(String, String)>,
}

/// The value of a unit, with its text as character sequences.
pub struct IngotView {
    pub id: Seq<char>,
    pub status: Status,
    pub solo: bool,
    pub grade: u8,
    pub skill: Skill,
    pub heat: u8,
    pub max: u8,
    pub smelt: u8,
    pub proof: Seq<char>,
    pub work: Seq<char>,
    pub extra: Seq<(Seq<char>, Seq<char>)>,
}

/// The characters of each pair of strings.
pub open spec fn pair_views(v: Seq<(String, String)>) -> Seq<(Seq<char>, Seq<char>)> {
    v.map_values(|p: (String, String)| (p.0@, p.1@))
}

impl View for Ingot {
    type V = IngotView;

    open spec fn view(&self) -> IngotView {
        IngotView {
            id: self.id@,
            status: self.status,
            solo: self.solo,
            grade: self.grade,
            skill: self.skill,
            heat: self.heat,
            max: self.max,
            smelt: self.smelt,
            proof: self.proof@,
            work: self.work@,
            extra: pair_views(self.extra@),
        }
    }
}

pub open spec fn status_word(s: Status) -> Seq<char> {
    match s {
        Status::Ore => "pending"@,
        Status::Molten => "in_progress"@,
        Status::Forged => "done"@,
        Status::Cracked => "failed"@,
    }
}

pub open spec fn status_of_word(w: Seq<char>) -> Option<Status> {
    if w == "pending"@ {
        Some(Status::Ore)
    } else if w == "in_progress"@ {
        Some(Status::Molten)
    } else if w == "done"@ {
        Some(Status::Forged)
    } else if w == "failed"@ {
        Some(Status::Cracked)
    } else {
        None
    }
}

pub open spec fn skill_word(s: Skill) -> Seq<char> {
    match s {
        Skill::Web => "web"@,
        Skill::Api => "api"@,
        Skill::Cli => "cli"@,
        Skill::Default => "default"@,
    }
}

/// Web work goes by several names; anything unknown is the default profile.
pub open spec fn skill_of_word(w: Seq<char>) -> Skill {
    if w == "web"@ || w == "frontend"@ || w == "ui"@ || w == "css"@ || w == "html"@ {
        Skill::Web
    } else if w == "api"@ {
        Skill::Api
    } else if w == "cli"@ {
        Skill::Cli
    } else {
        Skill::Default
    }
}

/// Whether two character vectors hold the same text.
pub fn same_chars(a: &Vec<char>, b: &Vec<char>) -> (r: bool)
    ensures
        r == (a@ == b@),
{
    if a.len() != b.len() {
        return false;
    }
    let mut i: usize = 0;
    while i < a.len()
        invariant
            a.len() == b.len(),
            0 <= i <= a.len(),
            forall|j: int| 0 <= j < i ==> a@[j] == b@[j],
        decreases a.len() - i,
    {
        if a[i] != b[i] {
            return false;
        }
        i += 1;
    }
    assert(a@ =~= b@);
    true
}

/// Whether `a` holds the text of the literal `w`.
pub fn is_word(a: &Vec<char>, w: &str) -> (r: bool)
    ensures
        r == (a@ == w@),
{
    let b = crate::text::chars_of(w);
    same_chars(a, &b)
}

impl Status {
    pub fn as_str(&self) -> (r: &'static str)
        ensures
            r@ == status_word(*self),
    {
        match self {
            Status::Ore => "pending",
            Status::Molten => "in_progress",
            Status::Forged => "done",
            Status::Cracked => "failed",
        }
    }

    pub fn parse(s: &str) -> (r: Option<Status>)
        ensures
            r == status_of_word(s@),
    {
        let v = crate::text::chars_of(s);
        Status::parse_chars(&v)
    }

    pub fn parse_chars(v: &Vec<char>) -> (r: Option<Status>)
        ensures
            r == status_of_word(v@),
    {
        if is_word(v, "pending") {
            Some(Status::Ore)
        } else if is_word(v, "in_progress") {
            Some(Status::Molten)
        } else if is_word(v, "done") {
            Some(Status::Forged)
        } else if is_word(v, "failed") {
            Some(Status::Cracked)
        } else {
            None
        }
    }
}

impl Skill {
    pub fn as_str(&self) -> (r: &'static str)
        ensures
            r@ == skill_word(*self),
    {
        match self {
            Skill::Web => "web",
            Skill::Api => "api",
            Skill::Cli => "cli",
            Skill::Default => "default",
        }
    }

    pub fn parse(s: &str) -> (r: Skill)
        ensures
            r == skill_of_word(s@),
    {
        let v = crate::text::chars_of(s);
        Skill::parse_chars(&v)
    }

    pub fn parse_chars(v: &Vec<char>) -> (r: Skill)
        ensures
            r == skill_of_word(v@),
    {
        if is_word(v, "web") || is_word(v, "frontend") || is_word(v, "ui") || is_word(v, "css")
            || is_word(v, "html") {
            Skill::Web
        } else if is_word(v, "api") {
            Skill::Api
        } else if is_word(v, "cli") {
            Skill::Cli
        } else {
            Skill::Default
        }
    }
}

/// A copy of a list of string pairs.
pub fn copy_pairs(v: &Vec<(String, String)>) -> (r: Vec<(String, String)>)
    ensures
        pair_views(r@) == pair_views(v@),
{
    let mut r: Vec<(String, String)> = Vec::new();
    let mut i: usize = 0;
    while i < v.len()
        invariant
            0 <= i <= v.len(),
            r.len() == i,
            forall|j: int| 0 <= j < i ==> #[trigger] r@[j].0@ == v@[j].0@ && r@[j].1@ == v@[j].1@,
        decreases v.len() - i,
    {
        let p = &v[i];
        let k = p.0.clone();
        let val = p.1.clone();
        r.push((k, val));
        i += 1;
    }
    assert forall|j: int| 0 <= j < v.len() implies #[trigger] pair_views(r@)[j] == pair_views(
        v@,
    )[j] by {
        assert(r@[j].0@ == v@[j].0@);
    }
    assert(pair_views(r@) =~= pair_views(v@));
    r
}

impl Ingot {
    pub fn is_complex(&self) -> (r: bool)
        ensures
            r == (self.grade >= HIGH_GRADE),
    {
        self.grade >= HIGH_GRADE
    }

    pub fn is_web(&self) -> (r: bool)
        ensures
            r == (self.skill == Skill::Web),
    {
        self.skill == Skill::Web
    }

    /// A copy with the same value.
    pub fn duplicate(&self) -> (r: Ingot)
        ensures
            r@ == self@,
    {
        Ingot {
            id: self.id.clone(),
            status: self.status,
            solo: self.solo,
            grade: self.grade,
            skill: self.skill,
            heat: self.heat,
            max: self.max,
            smelt: self.smelt,
            proof: self.proof.clone(),
            work: self.work.clone(),
            extra: copy_pairs(&self.extra),
        }
    }
}

} // verus!
