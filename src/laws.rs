use vstd::prelude::*;
use crate::reconcile::{
    disposition, passes, reported, resurrected_after, resurrection_of, resurrects, emitted_after,
    new_commits, revived_commits, Disposition,
};
use crate::reduce::{distinct_ids, in_reduction};
use crate::state::ReconciliationState;
use crate::time::Moment;
use crate::version::Candidate;

verus! {

/// Two runs on the same snapshot, with the same current version, the state of
/// the first kept for the second: the second finds nothing new.
pub proof fn lemma_rerun_finds_nothing_new(
    candidates: Seq<Candidate>,
    current: Option<Candidate>,
    window: int,
    first: Seq<Candidate>,
    second: Seq<Candidate>,
    st: ReconciliationState,
    kept: ReconciliationState,
)
    requires
        forall|x: Candidate| #[trigger] first.contains(x) <==> in_reduction(candidates, current, window, x),
        forall|x: Candidate| #[trigger] second.contains(x) <==> in_reduction(candidates, current, window, x),
        kept.emitted() == emitted_after(first, current, st),
    ensures
        forall|i: int|
            0 <= i < second.len() ==> disposition(
                #[trigger] second[i],
                current,
                kept.emitted(),
                kept.resurrected(),
            ) != Disposition::New,
{
    assert forall|i: int| 0 <= i < second.len() implies disposition(
        #[trigger] second[i],
        current,
        kept.emitted(),
        kept.resurrected(),
    ) != Disposition::New by {
        let x = second[i];
        assert(second.contains(x));
        assert(first.contains(x));
        let j = choose|j: int| 0 <= j < first.len() && first[j] == x;
        if disposition(x, current, st.emitted(), st.resurrected()) == Disposition::New {
            assert(new_commits(first, current, st, first.len() as int).contains(x.version.sha@));
        }
    }
}

/// A run whose stored state was lost reports everything that the run with its
/// state intact reports: each entry as it is, or the entry that a resurrection
/// stands for.
pub proof fn lemma_lost_state_reports_more(
    reduced: Seq<Candidate>,
    current: Option<Candidate>,
    st: ReconciliationState,
    lost: ReconciliationState,
    built: Seq<bool>,
    now: Moment,
    enabled: bool,
    enabled_lost: bool,
)
    requires
        lost.emitted() == Set::<Seq<char>>::empty(),
        lost.resurrected() == Set::<Seq<char>>::empty(),
    ensures
        forall|x: Candidate|
            #[trigger] reported(reduced, current, st, built, now, enabled, x) ==> reported(
                reduced,
                current,
                lost,
                built,
                now,
                enabled_lost,
                x,
            ) || exists|i: int|
                0 <= i < reduced.len() && reported(
                    reduced,
                    current,
                    lost,
                    built,
                    now,
                    enabled_lost,
                    #[trigger] reduced[i],
                ) && x == resurrection_of(reduced[i], now),
{
    assert forall|x: Candidate|
        #[trigger] reported(reduced, current, st, built, now, enabled, x) implies reported(
        reduced,
        current,
        lost,
        built,
        now,
        enabled_lost,
        x,
    ) || exists|i: int|
        0 <= i < reduced.len() && reported(
            reduced,
            current,
            lost,
            built,
            now,
            enabled_lost,
            #[trigger] reduced[i],
        ) && x == resurrection_of(reduced[i], now) by {
        if current == Some(x) {
        } else if exists|i: int| 0 <= i < reduced.len() && #[trigger] passes(reduced, current, st, i) && reduced[i] == x {
            let i = choose|i: int| 0 <= i < reduced.len() && #[trigger] passes(reduced, current, st, i) && reduced[i] == x;
            assert(passes(reduced, current, lost, i));
        } else {
            let i = choose|i: int|
                0 <= i < reduced.len() && #[trigger] resurrects(reduced, current, st, built, enabled, i) && x
                    == resurrection_of(reduced[i], now);
            assert(passes(reduced, current, lost, i));
            assert(reported(reduced, current, lost, built, now, enabled_lost, reduced[i]));
        }
    }
}

/// Whenever a current version is supplied, a run reports it unmodified,
/// whatever the reduced candidates, the state and the build statuses are.
pub proof fn lemma_current_echoed(
    reduced: Seq<Candidate>,
    current: Candidate,
    st: ReconciliationState,
    built: Seq<bool>,
    now: Moment,
    enabled: bool,
)
    ensures
        reported(reduced, Some(current), st, built, now, enabled, current),
{
}

/// A commit resurrected in one run is never resurrected again in any later
/// run, whatever it is reported with, as the stored resurrections only grow.
pub proof fn lemma_resurrected_once(
    reduced: Seq<Candidate>,
    current: Option<Candidate>,
    st: ReconciliationState,
    built: Seq<bool>,
    enabled: bool,
    i: int,
    later: Seq<Candidate>,
    later_current: Option<Candidate>,
    later_st: ReconciliationState,
    later_built: Seq<bool>,
    later_enabled: bool,
)
    requires
        resurrects(reduced, current, st, built, enabled, i),
        resurrected_after(reduced, current, st, built, enabled).subset_of(later_st.resurrected()),
    ensures
        forall|j: int|
            #[trigger] resurrects(later, later_current, later_st, later_built, later_enabled, j) ==> later[j].version.sha@
                != reduced[i].version.sha@,
{
    assert(revived_commits(reduced, current, st, built, enabled, reduced.len() as int).contains(
        reduced[i].version.sha@,
    ));
    assert(later_st.resurrected().contains(reduced[i].version.sha@));
}

/// An entry whose commit has any build status is never resurrected: whatever
/// a run reports for its entity is the entry itself or the current version.
pub proof fn lemma_built_never_resurrected(
    reduced: Seq<Candidate>,
    current: Option<Candidate>,
    st: ReconciliationState,
    built: Seq<bool>,
    now: Moment,
    enabled: bool,
    i: int,
)
    requires
        distinct_ids(reduced),
        0 <= i < reduced.len(),
        built.len() == reduced.len(),
        built[i],
    ensures
        !resurrects(reduced, current, st, built, enabled, i),
        forall|x: Candidate|
            #[trigger] reported(reduced, current, st, built, now, enabled, x) && x.id == reduced[i].id ==> x
                == reduced[i] || current == Some(x),
{
    assert forall|x: Candidate|
        #[trigger] reported(reduced, current, st, built, now, enabled, x) && x.id == reduced[i].id implies x
        == reduced[i] || current == Some(x) by {
        if current == Some(x) {
        } else if exists|j: int| 0 <= j < reduced.len() && #[trigger] passes(reduced, current, st, j) && reduced[j] == x {
            let j = choose|j: int| 0 <= j < reduced.len() && #[trigger] passes(reduced, current, st, j) && reduced[j] == x;
            if j != i {
                if j < i {
                    assert(reduced[j].id != reduced[i].id);
                } else {
                    assert(reduced[i].id != reduced[j].id);
                }
            }
        } else {
            let j = choose|j: int|
                0 <= j < reduced.len() && #[trigger] resurrects(reduced, current, st, built, enabled, j) && x
                    == resurrection_of(reduced[j], now);
            if j < i {
                assert(reduced[j].id != reduced[i].id);
            } else if j > i {
                assert(reduced[i].id != reduced[j].id);
            }
        }
    }
}

} // verus!
