//! Finds the gadgets of a binary: the short runs of instructions that end in a return, an
//! indirect call or an indirect jump.
use vstd::prelude::*;
use crate::common::GenericResult;
use crate::gadget::{gadgets_view, Gadget, GadgetModel};
use crate::output::{
    arrange_gadgets, ascending_addresses, lemma_arranged_by_address, lemma_arranged_from_found,
    spec_arrange,
};
use crate::session::{
    find_gadgets, found_in_session, is_search_result, lemma_search_result, Session,
};

pub mod common;
pub mod cpu;
pub mod engine;
pub mod error;
pub mod format;
pub mod gadget;
pub mod guarantees;
pub mod matcher;
pub mod numbers;
pub mod order;
pub mod output;
pub mod section;
pub mod session;
pub mod walker;

verus! {

/// Whether `arranged` is what running the session may give, with `found` for what its
/// workers find: the gadgets that the session held already and those that the workers find,
/// arranged as the session asks for.
pub open spec fn is_session_output(
    arranged: Seq<GadgetModel>,
    found: Seq<Gadget>,
    session: Session,
) -> bool {
    &&& exists|results: Seq<Seq<Gadget>>| #[trigger] is_search_result(found, results, session)
    &&& arranged == spec_arrange(gadgets_view(session.gadgets@ + found), session.unique_only)
}

/// Runs the session and hands back its gadgets, arranged for the output: what the workers
/// find, behind the gadgets that the session held already; one gadget of each text only where
/// the session asks for that; by ascending address.
pub fn collect_all_gadgets(sess: Session) -> (r: GenericResult<Vec<Gadget>>)
    ensures
        r is Ok,
        ascending_addresses(gadgets_view(r->Ok_0@)),
        exists|found: Seq<Gadget>| #[trigger] is_session_output(gadgets_view(r->Ok_0@), found, sess),
{
    let mut session = sess;
    match find_gadgets(&mut session) {
        Ok(_) => {},
        Err(e) => {
            return Err(e);
        },
    }
    let unique_only: bool = session.unique_only;
    let mut gadgets: Vec<Gadget> = Vec::new();
    core::mem::swap(&mut gadgets, &mut session.gadgets);
    let ghost all = gadgets@;
    let ghost found = all.skip(sess.gadgets@.len() as int);
    proof {
        assert(all =~= sess.gadgets@ + found) by {
            assert(all.subrange(0, sess.gadgets@.len() as int) == sess.gadgets@);
        }
        lemma_arranged_by_address(gadgets_view(all), unique_only);
    }
    let arranged = arrange_gadgets(gadgets, unique_only);
    assert(is_session_output(gadgets_view(arranged@), found, sess));
    Ok(arranged)
}

/// Every gadget that a session hands out is one of the gadgets that the session held already
/// or one that a run of its workers finds.
pub proof fn lemma_session_output(
    arranged: Seq<GadgetModel>,
    found: Seq<Gadget>,
    session: Session,
    i: int,
)
    requires
        is_session_output(arranged, found, session),
        0 <= i < arranged.len(),
    ensures
        gadgets_view(session.gadgets@).contains(arranged[i]) || found_in_session(
            arranged[i],
            session,
        ),
{
    let all = gadgets_view(session.gadgets@ + found);
    lemma_arranged_from_found(all, session.unique_only);
    assert(all.contains(arranged[i]));
    let p = choose|p: int| 0 <= p < all.len() && all[p] == arranged[i];
    if p < session.gadgets@.len() {
        assert(gadgets_view(session.gadgets@)[p] == arranged[i]);
    } else {
        let results = choose|results: Seq<Seq<Gadget>>| #[trigger]
            is_search_result(found, results, session);
        lemma_search_result(found, results, session, p - session.gadgets@.len());
    }
}

} // verus!
