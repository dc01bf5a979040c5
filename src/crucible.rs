//! The ledger ("crucible"): an ordered list of units behind free-text
//! header lines, read from and written to one flat file as a whole.

use vstd::prelude::*;
use vstd::string::*;
use crate::sexp::{Ingot, IngotView, Status};
use crate::parser::{ingot_of_line, ingot_views, parse_crucible, parse_ingot_chars, opt_view, ingots_of_text};
use crate::text::{chars_of, lines, split_lines, starts_with, trim, trimmed, has_prefix, views, string_of};
use crate::writer::{ingot_text, write_ingot};

verus! {

/// File the ledger is kept in.
pub const CRUCIBLE: &'static str = "PLAN.md";

/// File the blueprint is kept in.
pub const BLUEPRINT: &'static str = "BLUEPRINT.md";

/// In-memory ledger: header lines and units, in file order.
pub struct Crucible {
    pub path: String,
    pub header_lines: Vec<String>,
    pub ingots: Vec<Ingot>,
}

pub struct CrucibleView {
    pub path: Seq<char>,
    pub header: Seq<Seq<char>>,
    pub ingots: Seq<IngotView>,
}

pub open spec fn string_views(v: Seq<String>) -> Seq<Seq<char>> {
    v.map_values(|s: String| s@)
}

impl View for Crucible {
    type V = CrucibleView;

    open spec fn view(&self) -> CrucibleView {
        CrucibleView {
            path: self.path@,
            header: string_views(self.header_lines@),
            ingots: ingot_views(self.ingots@),
        }
    }
}

/// Whether a line is kept as a header line: its trimmed text is no record.
pub open spec fn is_header_line(l: Seq<char>) -> bool {
    !starts_with(trim(l), "(unit "@)
}

pub open spec fn header_of_lines(ls: Seq<Seq<char>>) -> Seq<Seq<char>>
    decreases ls.len(),
{
    if ls.len() == 0 {
        seq![]
    } else {
        let r = header_of_lines(ls.drop_last());
        if is_header_line(ls.last()) {
            r.push(ls.last())
        } else {
            r
        }
    }
}

/// The text a ledger is saved as: each header line, then each unit's
/// record, each line ended by `'\n'`.
pub open spec fn lines_text(ls: Seq<Seq<char>>) -> Seq<char>
    decreases ls.len(),
{
    if ls.len() == 0 {
        seq![]
    } else {
        lines_text(ls.drop_last()) + ls.last().push('\n')
    }
}

pub open spec fn records_text(us: Seq<IngotView>) -> Seq<char>
    decreases us.len(),
{
    if us.len() == 0 {
        seq![]
    } else {
        records_text(us.drop_last()) + ingot_text(us.last()).push('\n')
    }
}

pub open spec fn ledger_text(c: CrucibleView) -> Seq<char> {
    lines_text(c.header) + records_text(c.ingots)
}

pub open spec fn has_id(us: Seq<IngotView>, id: Seq<char>) -> bool {
    exists|i: int| 0 <= i < us.len() && (#[trigger] us[i]).id == id
}

/// `i` is the first position of a unit with this id.
pub open spec fn first_with_id(us: Seq<IngotView>, id: Seq<char>, i: int) -> bool {
    0 <= i < us.len() && us[i].id == id && forall|j: int| 0 <= j < i ==> (#[trigger] us[j]).id != id
}

/// A unit queued again with no attempts consumed; made to run alone when
/// `sequential`.
/// The first position of a unit with this id, if any.
pub open spec fn index_of(us: Seq<IngotView>, id: Seq<char>) -> Option<int> {
    if has_id(us, id) {
        Some(choose|i: int| first_with_id(us, id, i))
    } else {
        None
    }
}

pub proof fn lemma_index_of(us: Seq<IngotView>, id: Seq<char>, i: int)
    requires
        first_with_id(us, id, i),
    ensures
        index_of(us, id) == Some(i),
{
    assert(has_id(us, id));
    let k = choose|k: int| first_with_id(us, id, k);
    if k < i {
        assert(us[k].id != id);
    }
    if i < k {
        assert(us[i].id != id);
    }
}

pub open spec fn requeued(u: IngotView, sequential: bool) -> IngotView {
    IngotView { status: Status::Ore, heat: 0, solo: if sequential {
        false
    } else {
        u.solo
    }, ..u }
}

pub open spec fn with_status(u: IngotView, s: Status) -> IngotView {
    IngotView { status: s, ..u }
}

pub open spec fn with_heat(u: IngotView, h: u8) -> IngotView {
    IngotView { heat: h, ..u }
}

/// The next attempt count: one more, held at 255.
pub open spec fn heat_after(h: u8) -> u8 {
    if h < 255 {
        (h + 1) as u8
    } else {
        h
    }
}

/// Replacement units carry one more recovery tier than the unit they replace.
pub open spec fn stamped(rs: Seq<IngotView>, smelt: u8) -> Seq<IngotView> {
    rs.map_values(|u: IngotView| IngotView { smelt, ..u })
}

pub open spec fn smelt_after(s: u8) -> u8 {
    if s < 255 {
        (s + 1) as u8
    } else {
        s
    }
}

pub open spec fn replaced_at(us: Seq<IngotView>, i: int, rs: Seq<IngotView>) -> Seq<IngotView> {
    us.subrange(0, i) + stamped(rs, smelt_after(us[i].smelt)) + us.subrange(i + 1, us.len() as int)
}

pub open spec fn count_status(us: Seq<IngotView>, s: Status) -> nat
    decreases us.len(),
{
    if us.len() == 0 {
        0
    } else {
        count_status(us.drop_last(), s) + if us.last().status == s {
            1nat
        } else {
            0nat
        }
    }
}

pub open spec fn is_pending(u: IngotView) -> bool {
    u.status == Status::Ore || u.status == Status::Molten
}

pub open spec fn any_pending(us: Seq<IngotView>) -> bool {
    exists|i: int| 0 <= i < us.len() && is_pending(#[trigger] us[i])
}

pub open spec fn is_solo_ore(u: IngotView) -> bool {
    u.status == Status::Ore && u.solo
}

pub open spec fn is_sequential_ore(u: IngotView) -> bool {
    u.status == Status::Ore && !u.solo
}

/// The units matching `p`, in ledger order.
pub open spec fn select(us: Seq<IngotView>, p: spec_fn(IngotView) -> bool) -> Seq<IngotView>
    decreases us.len(),
{
    if us.len() == 0 {
        seq![]
    } else {
        let r = select(us.drop_last(), p);
        if p(us.last()) {
            r.push(us.last())
        } else {
            r
        }
    }
}

/// Totals of a ledger's units by status.
#[derive(Debug, Default)]
pub struct CrucibleCounts {
    pub total: usize,
    pub ore: usize,
    pub molten: usize,
    pub forged: usize,
    pub cracked: usize,
}

impl CrucibleCounts {
    /// Whole percent of the units that are done.
    pub fn pct_forged(&self) -> (r: u8)
        requires
            self.forged * 100 <= usize::MAX,
        ensures
            self.total == 0 ==> r == 0,
            self.total > 0 ==> r == ((self.forged * 100) as int / self.total as int) as u8,
    {
        if self.total == 0 {
            0
        } else {
            (self.forged * 100 / self.total) as u8
        }
    }
}

/// Relies on chrono's `Local::now` and `DateTime::format`: the local time,
/// written as `%Y-%m-%d %H:%M`. It depends on the clock, so nothing is
/// stated of it.
#[verifier::external_body]
fn local_minute_stamp() -> (r: String) {
    chrono::Local::now().format("%Y-%m-%d %H:%M").to_string()
}

impl Crucible {
    /// A ledger read from file text: lines whose trimmed text begins with
    /// `(unit ` are units (dropped when they do not parse), every other line
    /// is kept as a header line.
    pub fn from_content(path: &str, content: &str) -> (r: Crucible)
        ensures
            r@.path == path@,
            r@.header == header_of_lines(lines(content@)),
            r@.ingots == ingots_of_text(content@),
    {
        let v = chars_of(content);
        let ls = split_lines(&v);
        let ghost lv = views(ls@);
        let head = chars_of("(unit ");
        let mut header_lines: Vec<String> = Vec::new();
        let mut ingots: Vec<Ingot> = Vec::new();
        let mut i: usize = 0;
        while i < ls.len()
            invariant
                0 <= i <= ls.len(),
                lv == views(ls@),
                lv == lines(v@),
                head@ == "(unit "@,
                string_views(header_lines@) == header_of_lines(lv.subrange(0, i as int)),
                ingot_views(ingots@) == crate::parser::ingots_of_lines(lv.subrange(0, i as int)),
            decreases ls.len() - i,
        {
            let ghost pre = lv.subrange(0, i as int);
            let ghost nxt = lv.subrange(0, i + 1);
            assert(nxt.drop_last() =~= pre);
            assert(nxt.last() == ls@[i as int]@);
            let t = trimmed(&ls[i]);
            if has_prefix(&t, &head) {
                match parse_ingot_chars(&ls[i]) {
                    Some(u) => {
                        let ghost before = ingots@;
                        ingots.push(u);
                        assert(ingot_views(ingots@) =~= ingot_views(before).push(u@));
                    },
                    None => {},
                }
            } else {
                let line = string_of(&ls[i]);
                let ghost before = header_lines@;
                header_lines.push(line);
                assert(string_views(header_lines@) =~= string_views(before).push(line@));
            }
            i += 1;
        }
        assert(lv.subrange(0, ls.len() as int) =~= lv);
        Crucible { path: path.to_string(), header_lines, ingots }
    }

    /// A new ledger: a dated header line, a line naming the blueprint, then
    /// the units.
    pub fn new(path: &str, ingots: Vec<Ingot>) -> (r: Crucible)
        ensures
            r@.path == path@,
            r@.header.len() == 2,
            starts_with(r@.header[0], ";; CRUCIBLE "@),
            r@.header[1] == ";; Blueprint: "@ + BLUEPRINT@,
            r@.ingots == ingot_views(ingots@),
    {
        let mut first = String::new();
        first.append(";; CRUCIBLE ");
        let stamp = local_minute_stamp();
        first.append(stamp.as_str());
        let mut second = String::new();
        second.append(";; Blueprint: ");
        second.append(BLUEPRINT);
        let ghost f = first@;
        assert(f.subrange(0, ";; CRUCIBLE "@.len() as int) =~= ";; CRUCIBLE "@);
        let mut header_lines: Vec<String> = Vec::new();
        header_lines.push(first);
        header_lines.push(second);
        let r = Crucible { path: path.to_string(), header_lines, ingots };
        assert(r@.header[0] == f);
        r
    }

    pub fn header_lines(&self) -> (r: &Vec<String>)
        ensures
            string_views(r@) == self@.header,
    {
        &self.header_lines
    }

    /// The file text of the ledger.
    pub fn to_content(&self) -> (r: String)
        ensures
            r@ == ledger_text(self@),
    {
        let mut s = String::new();
        let ghost hv = self@.header;
        let mut i: usize = 0;
        while i < self.header_lines.len()
            invariant
                0 <= i <= self.header_lines.len(),
                hv == self@.header,
                s@ == lines_text(hv.subrange(0, i as int)),
            decreases self.header_lines.len() - i,
        {
            let ghost nxt = hv.subrange(0, i + 1);
            assert(nxt.drop_last() =~= hv.subrange(0, i as int));
            assert(nxt.last() == self.header_lines@[i as int]@);
            s.append(self.header_lines[i].as_str());
            crate::text::push_char(&mut s, '\n');
            i += 1;
        }
        assert(hv.subrange(0, self.header_lines.len() as int) =~= hv);
        let ghost head = s@;
        let ghost uv = self@.ingots;
        let mut j: usize = 0;
        while j < self.ingots.len()
            invariant
                0 <= j <= self.ingots.len(),
                uv == self@.ingots,
                head == lines_text(hv),
                hv == self@.header,
                s@ == head + records_text(uv.subrange(0, j as int)),
            decreases self.ingots.len() - j,
        {
            let ghost nxt = uv.subrange(0, j + 1);
            assert(nxt.drop_last() =~= uv.subrange(0, j as int));
            assert(nxt.last() == self.ingots@[j as int]@);
            let line = write_ingot(&self.ingots[j]);
            let ghost before = s@;
            s.append(line.as_str());
            crate::text::push_char(&mut s, '\n');
            assert(s@ =~= before + ingot_text(self.ingots@[j as int]@).push('\n'));
            j += 1;
        }
        assert(uv.subrange(0, self.ingots.len() as int) =~= uv);
        s
    }

    /// The position of the first unit with this id.
    pub fn position(&self, id: &str) -> (r: Option<usize>)
        ensures
            match r {
                Some(i) => first_with_id(self@.ingots, id@, i as int),
                None => !has_id(self@.ingots, id@),
            },
    {
        let ghost us = self@.ingots;
        let mut i: usize = 0;
        while i < self.ingots.len()
            invariant
                0 <= i <= self.ingots.len(),
                us == self@.ingots,
                forall|j: int| 0 <= j < i ==> (#[trigger] us[j]).id != id@,
            decreases self.ingots.len() - i,
        {
            assert(us[i as int] == self.ingots@[i as int]@);
            if self.ingots[i].id == id.to_string() {
                return Some(i);
            }
            i += 1;
        }
        None
    }

    /// The first unit with this id.
    pub fn get(&self, id: &str) -> (r: Option<&Ingot>)
        ensures
            match r {
                Some(u) => exists|i: int|
                    first_with_id(self@.ingots, id@, i) && u@ == #[trigger] self@.ingots[i],
                None => !has_id(self@.ingots, id@),
            },
    {
        match self.position(id) {
            Some(i) => {
                let u = &self.ingots[i];
                assert(u@ == self@.ingots[i as int]);
                Some(u)
            },
            None => None,
        }
    }

    /// The first unit with this id, to change in place.
    pub fn get_mut(&mut self, id: &str) -> (r: Option<&mut Ingot>)
        ensures
            match old(self).position_spec(id@) {
                Some(i) => r is Some && *(r->0) == old(self).ingots@[i] && final(self).ingots@
                    == old(self).ingots@.update(i, *final(r->0)) && final(self).path
                    == old(self).path && final(self).header_lines == old(self).header_lines,
                None => r is None && final(self).ingots@ == old(self).ingots@ && final(self).path
                    == old(self).path && final(self).header_lines == old(self).header_lines,
            },
    {
        match self.position(id) {
            Some(i) => {
                proof {
                    self.lemma_position_spec(id@, i as int);
                }
                Some(&mut self.ingots[i])
            },
            None => {
                proof {
                    self.lemma_position_spec_none(id@);
                }
                None
            },
        }
    }

    /// Sets the status of the first unit with this id; no other change.
    pub fn set_status(&mut self, id: &str, status: Status)
        ensures
            final(self)@.path == old(self)@.path,
            final(self)@.header == old(self)@.header,
            match old(self).position_spec(id@) {
                Some(i) => final(self)@.ingots == old(self)@.ingots.update(
                    i,
                    with_status(old(self)@.ingots[i], status),
                ),
                None => final(self)@.ingots == old(self)@.ingots,
            },
    {
        match self.position(id) {
            Some(i) => {
                proof {
                    self.lemma_position_spec(id@, i as int);
                }
                let mut u = self.ingots.remove(i);
                u.status = status;
                self.ingots.insert(i, u);
                assert(ingot_views(self.ingots@) =~= ingot_views(old(self).ingots@).update(
                    i as int,
                    with_status(old(self)@.ingots[i as int], status),
                ));
            },
            None => {
                proof {
                    self.lemma_position_spec_none(id@);
                }
            },
        }
    }

    /// Counts one more attempt on the first unit with this id (held at 255).
    pub fn increment_heat(&mut self, id: &str)
        ensures
            final(self)@.path == old(self)@.path,
            final(self)@.header == old(self)@.header,
            match old(self).position_spec(id@) {
                Some(i) => final(self)@.ingots == old(self)@.ingots.update(
                    i,
                    with_heat(old(self)@.ingots[i], heat_after(old(self)@.ingots[i].heat)),
                ),
                None => final(self)@.ingots == old(self)@.ingots,
            },
    {
        match self.position(id) {
            Some(i) => {
                proof {
                    self.lemma_position_spec(id@, i as int);
                }
                let mut u = self.ingots.remove(i);
                if u.heat < 255 {
                    u.heat = u.heat + 1;
                }
                self.ingots.insert(i, u);
                assert(ingot_views(self.ingots@) =~= ingot_views(old(self).ingots@).update(
                    i as int,
                    with_heat(old(self)@.ingots[i as int], heat_after(old(self)@.ingots[i as int].heat)),
                ));
            },
            None => {
                proof {
                    self.lemma_position_spec_none(id@);
                }
            },
        }
    }

    /// The first position of a unit with this id, if any.
    pub open spec fn position_spec(&self, id: Seq<char>) -> Option<int> {
        index_of(self@.ingots, id)
    }

    pub proof fn lemma_position_spec(&self, id: Seq<char>, i: int)
        requires
            first_with_id(self@.ingots, id, i),
        ensures
            self.position_spec(id) == Some(i),
    {
        lemma_index_of(self@.ingots, id, i);
    }

    pub proof fn lemma_position_spec_none(&self, id: Seq<char>)
        requires
            !has_id(self@.ingots, id),
        ensures
            self.position_spec(id) is None,
    {
    }
    /// Sets the status of the unit at position `i`.
    pub fn set_status_at(&mut self, i: usize, status: Status)
        requires
            i < old(self).ingots.len(),
        ensures
            final(self)@.path == old(self)@.path,
            final(self)@.header == old(self)@.header,
            final(self)@.ingots == old(self)@.ingots.update(
                i as int,
                with_status(old(self)@.ingots[i as int], status),
            ),
    {
        let mut u = self.ingots.remove(i);
        u.status = status;
        self.ingots.insert(i, u);
        assert(ingot_views(self.ingots@) =~= ingot_views(old(self).ingots@).update(
            i as int,
            with_status(old(self)@.ingots[i as int], status),
        ));
    }

    /// Queues the unit at position `i` again with no attempts consumed, to
    /// run alone when `sequential`.
    pub fn requeue_at(&mut self, i: usize, sequential: bool)
        requires
            i < old(self).ingots.len(),
        ensures
            final(self)@.path == old(self)@.path,
            final(self)@.header == old(self)@.header,
            final(self)@.ingots == old(self)@.ingots.update(
                i as int,
                requeued(old(self)@.ingots[i as int], sequential),
            ),
    {
        let mut u = self.ingots.remove(i);
        u.status = Status::Ore;
        u.heat = 0;
        if sequential {
            u.solo = false;
        }
        self.ingots.insert(i, u);
        assert(ingot_views(self.ingots@) =~= ingot_views(old(self).ingots@).update(
            i as int,
            requeued(old(self)@.ingots[i as int], sequential),
        ));
    }

    /// Counts an attempt on the first unit with this id when it has attempts
    /// left; says whether it had.
    pub fn begin_attempt(&mut self, id: &str) -> (r: bool)
        ensures
            final(self)@.path == old(self)@.path,
            final(self)@.header == old(self)@.header,
            match old(self).position_spec(id@) {
                Some(i) => {
                    let u = old(self)@.ingots[i];
                    &&& r == (u.heat < u.max)
                    &&& r ==> final(self)@.ingots == old(self)@.ingots.update(
                        i,
                        with_heat(u, (u.heat + 1) as u8),
                    )
                    &&& !r ==> final(self)@.ingots == old(self)@.ingots
                },
                None => !r && final(self)@.ingots == old(self)@.ingots,
            },
    {
        match self.position(id) {
            Some(i) => {
                proof {
                    self.lemma_position_spec(id@, i as int);
                }
                if self.ingots[i].heat < self.ingots[i].max {
                    let mut u = self.ingots.remove(i);
                    u.heat = u.heat + 1;
                    self.ingots.insert(i, u);
                    assert(ingot_views(self.ingots@) =~= ingot_views(old(self).ingots@).update(
                        i as int,
                        with_heat(
                            old(self)@.ingots[i as int],
                            (old(self)@.ingots[i as int].heat + 1) as u8,
                        ),
                    ));
                    true
                } else {
                    false
                }
            },
            None => {
                proof {
                    self.lemma_position_spec_none(id@);
                }
                false
            },
        }
    }

    /// Replaces the first unit with this id by `replacements`, at its
    /// position, each replacement carrying one more recovery tier than the
    /// unit replaced; nothing changes when no unit has the id.
    pub fn replace(&mut self, id: &str, replacements: Vec<Ingot>)
        ensures
            final(self)@.path == old(self)@.path,
            final(self)@.header == old(self)@.header,
            match old(self).position_spec(id@) {
                Some(i) => final(self)@.ingots == replaced_at(
                    old(self)@.ingots,
                    i,
                    ingot_views(replacements@),
                ),
                None => final(self)@.ingots == old(self)@.ingots,
            },
    {
        match self.position(id) {
            Some(idx) => {
                proof {
                    self.lemma_position_spec(id@, idx as int);
                }
                let ghost us = old(self)@.ingots;
                let gone = self.ingots.remove(idx);
                let smelt: u8 = if gone.smelt < 255 {
                    gone.smelt + 1
                } else {
                    gone.smelt
                };
                assert(smelt == smelt_after(us[idx as int].smelt));
                let ghost all = ingot_views(replacements@);
                let ghost pre = us.subrange(0, idx as int);
                let ghost post = us.subrange(idx + 1, us.len() as int);
                assert(ingot_views(self.ingots@) =~= pre + post);
                let mut rs = replacements;
                while rs.len() > 0
                    invariant
                        idx <= self.ingots.len(),
                        ingot_views(rs@) == all.subrange(0, rs.len() as int),
                        rs.len() <= all.len(),
                        ingot_views(self.ingots@) == pre + stamped(
                            all.subrange(rs.len() as int, all.len() as int),
                            smelt,
                        ) + post,
                        pre.len() == idx,
                        self@.path == old(self)@.path,
                        self@.header == old(self)@.header,
                    decreases rs.len(),
                {
                    let ghost k = rs.len() as int;
                    let ghost before = ingot_views(self.ingots@);
                    let ghost rs_before = rs@;
                    let mut u = rs.pop().unwrap();
                    assert(ingot_views(rs_before)[k - 1] == rs_before[k - 1]@);
                    assert(all.subrange(0, k)[k - 1] == all[k - 1]);
                    assert(u@ == all[k - 1]);
                    assert(ingot_views(rs@) =~= all.subrange(0, k - 1)) by {
                        assert(rs_before.drop_last() == rs@);
                    }
                    u.smelt = smelt;
                    let ghost uv = u@;
                    self.ingots.insert(idx, u);
                    assert(ingot_views(self.ingots@) =~= before.insert(idx as int, uv));
                    assert(uv == IngotView { smelt, ..all[k - 1] });
                    assert(stamped(all.subrange(k - 1, all.len() as int), smelt) =~= seq![
                        IngotView { smelt, ..all[k - 1] },
                    ] + stamped(all.subrange(k, all.len() as int), smelt));
                    assert(ingot_views(self.ingots@) =~= pre + stamped(
                        all.subrange(k - 1, all.len() as int),
                        smelt,
                    ) + post);
                }
                assert(all.subrange(0, all.len() as int) =~= all);
            },
            None => {
                proof {
                    self.lemma_position_spec_none(id@);
                }
            },
        }
    }

    /// Totals by status.
    pub fn counts(&self) -> (r: CrucibleCounts)
        ensures
            r.total == self@.ingots.len(),
            r.ore == count_status(self@.ingots, Status::Ore),
            r.molten == count_status(self@.ingots, Status::Molten),
            r.forged == count_status(self@.ingots, Status::Forged),
            r.cracked == count_status(self@.ingots, Status::Cracked),
            r.ore + r.molten + r.forged + r.cracked == r.total,
    {
        let ghost us = self@.ingots;
        let mut c = CrucibleCounts { total: 0, ore: 0, molten: 0, forged: 0, cracked: 0 };
        let mut i: usize = 0;
        while i < self.ingots.len()
            invariant
                0 <= i <= self.ingots.len(),
                us == self@.ingots,
                c.ore == count_status(us.subrange(0, i as int), Status::Ore),
                c.molten == count_status(us.subrange(0, i as int), Status::Molten),
                c.forged == count_status(us.subrange(0, i as int), Status::Forged),
                c.cracked == count_status(us.subrange(0, i as int), Status::Cracked),
                c.ore + c.molten + c.forged + c.cracked == i,
            decreases self.ingots.len() - i,
        {
            let ghost nxt = us.subrange(0, i + 1);
            assert(nxt.drop_last() =~= us.subrange(0, i as int));
            assert(nxt.last() == self.ingots@[i as int]@);
            match self.ingots[i].status {
                Status::Ore => c.ore = c.ore + 1,
                Status::Molten => c.molten = c.molten + 1,
                Status::Forged => c.forged = c.forged + 1,
                Status::Cracked => c.cracked = c.cracked + 1,
            }
            i += 1;
        }
        assert(us.subrange(0, self.ingots.len() as int) =~= us);
        c.total = self.ingots.len();
        c
    }

    /// Whether any unit is queued or being worked.
    pub fn has_pending(&self) -> (r: bool)
        ensures
            r == any_pending(self@.ingots),
    {
        let ghost us = self@.ingots;
        let mut i: usize = 0;
        while i < self.ingots.len()
            invariant
                0 <= i <= self.ingots.len(),
                us == self@.ingots,
                forall|j: int| 0 <= j < i ==> !is_pending(#[trigger] us[j]),
            decreases self.ingots.len() - i,
        {
            assert(us[i as int] == self.ingots@[i as int]@);
            if self.ingots[i].status == Status::Ore || self.ingots[i].status == Status::Molten {
                assert(is_pending(us[i as int]));
                return true;
            }
            i += 1;
        }
        false
    }

    /// The first queued unit.
    pub fn next_ore(&self) -> (r: Option<&Ingot>)
        ensures
            match r {
                Some(u) => exists|i: int|
                    0 <= i < self@.ingots.len() && u@ == #[trigger] self@.ingots[i]
                        && u.status == Status::Ore && forall|j: int|
                        0 <= j < i ==> (#[trigger] self@.ingots[j]).status != Status::Ore,
                None => forall|i: int|
                    0 <= i < self@.ingots.len() ==> (#[trigger] self@.ingots[i]).status
                        != Status::Ore,
            },
    {
        let ghost us = self@.ingots;
        let mut i: usize = 0;
        while i < self.ingots.len()
            invariant
                0 <= i <= self.ingots.len(),
                us == self@.ingots,
                forall|j: int| 0 <= j < i ==> (#[trigger] us[j]).status != Status::Ore,
            decreases self.ingots.len() - i,
        {
            assert(us[i as int] == self.ingots@[i as int]@);
            if self.ingots[i].status == Status::Ore {
                return Some(&self.ingots[i]);
            }
            i += 1;
        }
        None
    }

    /// The first queued unit that must run alone.
    pub fn sequential_ore(&self) -> (r: Option<&Ingot>)
        ensures
            match r {
                Some(u) => exists|i: int|
                    0 <= i < self@.ingots.len() && u@ == #[trigger] self@.ingots[i]
                        && is_sequential_ore(u@) && forall|j: int|
                        0 <= j < i ==> !is_sequential_ore(#[trigger] self@.ingots[j]),
                None => forall|i: int|
                    0 <= i < self@.ingots.len() ==> !is_sequential_ore(#[trigger] self@.ingots[i]),
            },
    {
        let ghost us = self@.ingots;
        let mut i: usize = 0;
        while i < self.ingots.len()
            invariant
                0 <= i <= self.ingots.len(),
                us == self@.ingots,
                forall|j: int| 0 <= j < i ==> !is_sequential_ore(#[trigger] us[j]),
            decreases self.ingots.len() - i,
        {
            assert(us[i as int] == self.ingots@[i as int]@);
            if self.ingots[i].status == Status::Ore && !self.ingots[i].solo {
                return Some(&self.ingots[i]);
            }
            i += 1;
        }
        None
    }

    /// The queued units that may run in parallel, in ledger order.
    pub fn solo_ore(&self) -> (r: Vec<&Ingot>)
        ensures
            r@.map_values(|u: &Ingot| u@) == select(self@.ingots, |u: IngotView| is_solo_ore(u)),
    {
        let ghost us = self@.ingots;
        let ghost p = |u: IngotView| is_solo_ore(u);
        let mut r: Vec<&Ingot> = Vec::new();
        let mut i: usize = 0;
        while i < self.ingots.len()
            invariant
                0 <= i <= self.ingots.len(),
                us == self@.ingots,
                p == (|u: IngotView| is_solo_ore(u)),
                r@.map_values(|u: &Ingot| u@) == select(us.subrange(0, i as int), p),
            decreases self.ingots.len() - i,
        {
            let ghost nxt = us.subrange(0, i + 1);
            assert(nxt.drop_last() =~= us.subrange(0, i as int));
            assert(nxt.last() == self.ingots@[i as int]@);
            let ghost before = r@;
            if self.ingots[i].status == Status::Ore && self.ingots[i].solo {
                r.push(&self.ingots[i]);
                assert(r@.map_values(|u: &Ingot| u@) =~= before.map_values(|u: &Ingot| u@).push(
                    self.ingots@[i as int]@,
                ));
            }
            i += 1;
        }
        assert(us.subrange(0, self.ingots.len() as int) =~= us);
        r
    }
}

/// Parses the unit records in an agent's free-form output.
pub fn parse_ingot_lines(raw: &str) -> (r: Vec<Ingot>)
    ensures
        ingot_views(r@) == ingots_of_text(raw@),
{
    parse_crucible(raw)
}

/// Every unit is counted under exactly one status: the four counts add up
/// to the number of units.
pub proof fn lemma_counts_total(us: Seq<IngotView>)
    ensures
        count_status(us, Status::Ore) + count_status(us, Status::Molten) + count_status(
            us,
            Status::Forged,
        ) + count_status(us, Status::Cracked) == us.len(),
    decreases us.len(),
{
    if us.len() > 0 {
        lemma_counts_total(us.drop_last());
    }
}

/// Replacing a unit by one unit with another id keeps the number of units;
/// where ids are unique, the old id is gone and the new one present, at the
/// old position, one recovery tier up.
pub proof fn lemma_replace_single(us: Seq<IngotView>, i: int, a: IngotView)
    requires
        0 <= i < us.len(),
        forall|j: int, k: int| 0 <= j < k < us.len() ==> us[j].id != us[k].id,
        a.id != us[i].id,
    ensures
        replaced_at(us, i, seq![a]).len() == us.len(),
        !has_id(replaced_at(us, i, seq![a]), us[i].id),
        has_id(replaced_at(us, i, seq![a]), a.id),
        replaced_at(us, i, seq![a])[i].id == a.id,
        replaced_at(us, i, seq![a])[i].smelt == smelt_after(us[i].smelt),
{
    let r = replaced_at(us, i, seq![a]);
    let st = stamped(seq![a], smelt_after(us[i].smelt));
    assert(st.len() == 1);
    assert(r[i] == st[0]);
    assert forall|j: int| 0 <= j < r.len() implies (#[trigger] r[j]).id != us[i].id by {
        if j < i {
            assert(r[j] == us[j]);
        } else if j > i {
            assert(r[j] == us[j]);
        }
    }
    assert(r[i].id == a.id);
}

/// Splitting a unit in two adds exactly one unit: the two take its place,
/// in order, each one recovery tier above it, and the other units stay
/// where they were.
pub proof fn lemma_replace_split(us: Seq<IngotView>, i: int, a: IngotView, b: IngotView)
    requires
        0 <= i < us.len(),
        us[i].smelt < 255,
    ensures
        replaced_at(us, i, seq![a, b]).len() == us.len() + 1,
        replaced_at(us, i, seq![a, b]).subrange(0, i) == us.subrange(0, i),
        replaced_at(us, i, seq![a, b])[i].id == a.id,
        replaced_at(us, i, seq![a, b])[i + 1].id == b.id,
        replaced_at(us, i, seq![a, b])[i].smelt == us[i].smelt + 1,
        replaced_at(us, i, seq![a, b])[i + 1].smelt == us[i].smelt + 1,
        replaced_at(us, i, seq![a, b]).subrange(i + 2, us.len() + 1int) == us.subrange(
            i + 1,
            us.len() as int,
        ),
{
    let r = replaced_at(us, i, seq![a, b]);
    let st = stamped(seq![a, b], smelt_after(us[i].smelt));
    assert(st.len() == 2);
    assert(r[i] == st[0]);
    assert(r[i + 1] == st[1]);
    assert(r.subrange(0, i) =~= us.subrange(0, i));
    assert(r.subrange(i + 2, us.len() + 1int) =~= us.subrange(i + 1, us.len() as int));
}

} // verus!
