//! Re-smelt: the first recovery tier, run on a unit that exhausted its
//! attempts. The agent either rewrites the unit, splits it, or declares it
//! impossible; a unit passes through this tier once.

use vstd::prelude::*;
use crate::crucible::{Crucible, CrucibleView, replaced_at};
use crate::error::SlagError;
use crate::parser::{ingot_views, ingots_of_text, parse_crucible};
use crate::sexp::{Ingot, IngotView, Status};
use crate::text::{chars_of, contains, has_infix};

verus! {

/// Replacement units start afresh: queued, no attempts consumed.
pub open spec fn fresh(rs: Seq<IngotView>) -> Seq<IngotView> {
    rs.map_values(|u: IngotView| IngotView { status: Status::Ore, heat: 0, ..u })
}

/// Whether a unit may still be re-smelted.
pub open spec fn may_resmelt(u: IngotView) -> bool {
    u.smelt == 0
}

/// Whether a reply rewrites or splits the unit: no `IMPOSSIBLE:` marker and
/// at least one unit record.
pub open spec fn reply_recasts(reply: Seq<char>) -> bool {
    !contains(reply, "IMPOSSIBLE:"@) && ingots_of_text(reply).len() > 0
}

pub open spec fn is_cracked_error(r: Result<(), SlagError>, u: IngotView) -> bool {
    match r {
        Err(SlagError::IngotCracked(id, m)) => id@ == u.id && m == u.max,
        _ => false,
    }
}

/// Refuses re-smelt of a unit that has been through it.
pub fn resmelt_gate(ingot: &Ingot) -> (r: Result<(), SlagError>)
    ensures
        may_resmelt(ingot@) ==> r is Ok,
        !may_resmelt(ingot@) ==> is_cracked_error(r, ingot@),
{
    if ingot.smelt >= 1 {
        Err(SlagError::IngotCracked(ingot.id.clone(), ingot.max))
    } else {
        Ok(())
    }
}

/// Copies of units, queued and with no attempts consumed.
pub fn freshen(v: &Vec<Ingot>) -> (r: Vec<Ingot>)
    ensures
        ingot_views(r@) == fresh(ingot_views(v@)),
{
    let mut r: Vec<Ingot> = Vec::new();
    let mut i: usize = 0;
    while i < v.len()
        invariant
            0 <= i <= v.len(),
            ingot_views(r@) == fresh(ingot_views(v@)).subrange(0, i as int),
        decreases v.len() - i,
    {
        let mut u = v[i].duplicate();
        u.status = Status::Ore;
        u.heat = 0;
        let ghost w = v@[i as int]@;
        assert(u@ == IngotView { status: Status::Ore, heat: 0, ..w });
        assert(ingot_views(v@)[i as int] == w);
        assert(fresh(ingot_views(v@))[i as int] == u@);
        let ghost before = ingot_views(r@);
        r.push(u);
        assert(ingot_views(r@) =~= before.push(u@));
        assert(ingot_views(r@) =~= fresh(ingot_views(v@)).subrange(0, i + 1));
        i += 1;
    }
    assert(fresh(ingot_views(v@)).subrange(0, v.len() as int) =~= fresh(ingot_views(v@)));
    r
}

/// Applies the agent's reply to a re-smelt request for `ingot`. Refused,
/// with the ledger untouched, when the unit was re-smelted before; a failure,
/// with the ledger untouched, when the reply declares the unit impossible
/// or holds no unit record; otherwise the unit is replaced in place by the
/// reply's units, fresh and one recovery tier up.
pub fn resmelt_ingot(crucible: &mut Crucible, ingot: &Ingot, reply: &str) -> (r: Result<(), SlagError>)
    ensures
        !may_resmelt(ingot@) ==> is_cracked_error(r, ingot@),
        !may_resmelt(ingot@) ==> final(crucible)@ == old(crucible)@,
        may_resmelt(ingot@) && !reply_recasts(reply@) ==> is_cracked_error(r, ingot@),
        may_resmelt(ingot@) && !reply_recasts(reply@) ==> final(crucible)@ == old(crucible)@,
        may_resmelt(ingot@) && reply_recasts(reply@) ==> r is Ok,
        may_resmelt(ingot@) && reply_recasts(reply@) ==> final(crucible)@.path == old(crucible)@.path,
        may_resmelt(ingot@) && reply_recasts(reply@) ==> final(crucible)@.header == old(crucible)@.header,
        may_resmelt(ingot@) && reply_recasts(reply@) ==> match old(crucible).position_spec(ingot@.id) {
            Some(i) => final(crucible)@.ingots == replaced_at(old(crucible)@.ingots, i, fresh(ingots_of_text(reply@))),
            None => final(crucible)@.ingots == old(crucible)@.ingots,
        },
{
    if ingot.smelt >= 1 {
        return Err(SlagError::IngotCracked(ingot.id.clone(), ingot.max));
    }
    let text = chars_of(reply);
    let marker = chars_of("IMPOSSIBLE:");
    if has_infix(&text, &marker) {
        return Err(SlagError::IngotCracked(ingot.id.clone(), ingot.max));
    }
    let parsed = parse_crucible(reply);
    if parsed.len() == 0 {
        return Err(SlagError::IngotCracked(ingot.id.clone(), ingot.max));
    }
    let units = freshen(&parsed);
    crucible.replace(ingot.id.as_str(), units);
    Ok(())
}

} // verus!
