use vstd::prelude::*;
use crate::reduce::{insert_in_order, ordered};
use crate::state::{lemma_text_set_prefix, lemma_text_set_push, text_set, ReconciliationState};
use crate::time::{Moment, NANOS_PER_SEC};
use crate::version::{Candidate, Version};

verus! {

/// 2099-01-01T00:00:00Z in nanoseconds: a current version at or after it
/// carries the far-future date that older resurrections used.
pub const SENTINEL_NANOS: i128 = 4_070_908_800 * NANOS_PER_SEC;

/// A current version this close to now may be a resurrection that is still
/// being recorded downstream.
pub const COOLDOWN_NANOS: i128 = 120 * NANOS_PER_SEC;

/// Where a reduced candidate goes in a run.
#[derive(Debug, Clone, Copy, PartialEq, Eq, Structural)]
pub enum Disposition {
    /// The current version itself: always reported, never recorded.
    Current,
    /// A commit never emitted before: reported and recorded.
    New,
    /// Emitted before, never resurrected: a candidate for resurrection.
    Stuck,
    /// Emitted before and already resurrected once: dropped.
    Settled,
}

/// Two candidates agree in every field, texts compared by content.
pub open spec fn same_candidate(a: Candidate, b: Candidate) -> bool {
    a.id == b.id && a.at == b.at && a.version.texts() == b.version.texts()
}

/// The candidate is the current version.
pub open spec fn is_current(c: Candidate, current: Option<Candidate>) -> bool {
    current matches Some(cur) && same_candidate(c, cur)
}

/// Where a reduced candidate goes, given the state read at the start of the run.
pub open spec fn disposition(
    c: Candidate,
    current: Option<Candidate>,
    emitted: Set<Seq<char>>,
    resurrected: Set<Seq<char>>,
) -> Disposition {
    if is_current(c, current) {
        Disposition::Current
    } else if !emitted.contains(c.version.sha@) {
        Disposition::New
    } else if !resurrected.contains(c.version.sha@) {
        Disposition::Stuck
    } else {
        Disposition::Settled
    }
}

/// Resurrection is on for a run: not switched off, and the current version's
/// timestamp looks genuine (before the far-future sentinel, and not within the
/// cooldown before now).
pub open spec fn resurrection_allowed(current: Option<Candidate>, now: int, disabled: bool) -> bool {
    &&& !disabled
    &&& current matches Some(cur) ==> cur.at < SENTINEL_NANOS && now - cur.at >= COOLDOWN_NANOS
}

/// The synthetic version that resurrects a stuck candidate: same entity and
/// commit, reported at `now`.
pub open spec fn resurrection_of(c: Candidate, now: Moment) -> Candidate {
    Candidate {
        id: c.id,
        at: now.nanos,
        version: Version { iid: c.version.iid, committed_date: now.text, sha: c.version.sha },
    }
}

/// The entry at `i` is resurrected in this run.
pub open spec fn resurrects(
    reduced: Seq<Candidate>,
    current: Option<Candidate>,
    st: ReconciliationState,
    built: Seq<bool>,
    enabled: bool,
    i: int,
) -> bool {
    &&& 0 <= i < reduced.len()
    &&& disposition(reduced[i], current, st.emitted(), st.resurrected()) == Disposition::Stuck
    &&& enabled
    &&& !built[i]
}

/// The entry at `i` is new in this run: reported as it is, and recorded.
pub open spec fn passes(
    reduced: Seq<Candidate>,
    current: Option<Candidate>,
    st: ReconciliationState,
    i: int,
) -> bool {
    &&& 0 <= i < reduced.len()
    &&& disposition(reduced[i], current, st.emitted(), st.resurrected()) == Disposition::New
}

/// What a run reports from the first `n` entries: the new ones as they are,
/// and the resurrections of the stuck ones that may be resurrected.
pub open spec fn reported_among(
    reduced: Seq<Candidate>,
    current: Option<Candidate>,
    st: ReconciliationState,
    built: Seq<bool>,
    now: Moment,
    enabled: bool,
    n: int,
    x: Candidate,
) -> bool {
    ||| exists|i: int| 0 <= i < n && #[trigger] passes(reduced, current, st, i) && reduced[i] == x
    ||| exists|i: int|
        0 <= i < n && #[trigger] resurrects(reduced, current, st, built, enabled, i) && x
            == resurrection_of(reduced[i], now)
}

/// What a run reports: the current version, unmodified, whenever there is
/// one; the new entries; and the resurrections.
pub open spec fn reported(
    reduced: Seq<Candidate>,
    current: Option<Candidate>,
    st: ReconciliationState,
    built: Seq<bool>,
    now: Moment,
    enabled: bool,
    x: Candidate,
) -> bool {
    ||| reported_among(reduced, current, st, built, now, enabled, reduced.len() as int, x)
    ||| current == Some(x)
}

/// The commit ids of the new entries among the first `n`.
pub open spec fn new_commits(
    reduced: Seq<Candidate>,
    current: Option<Candidate>,
    st: ReconciliationState,
    n: int,
) -> Set<Seq<char>> {
    Set::new(
        |t: Seq<char>|
            exists|i: int|
                0 <= i < n && disposition(#[trigger] reduced[i], current, st.emitted(), st.resurrected())
                    == Disposition::New && reduced[i].version.sha@ == t,
    )
}

/// The commit ids of the entries among the first `n` that are resurrected.
pub open spec fn revived_commits(
    reduced: Seq<Candidate>,
    current: Option<Candidate>,
    st: ReconciliationState,
    built: Seq<bool>,
    enabled: bool,
    n: int,
) -> Set<Seq<char>> {
    Set::new(
        |t: Seq<char>|
            exists|i: int|
                0 <= i < n && #[trigger] resurrects(reduced, current, st, built, enabled, i)
                    && reduced[i].version.sha@ == t,
    )
}

/// The commit ids emitted after a run.
pub open spec fn emitted_after(
    reduced: Seq<Candidate>,
    current: Option<Candidate>,
    st: ReconciliationState,
) -> Set<Seq<char>> {
    st.emitted().union(new_commits(reduced, current, st, reduced.len() as int))
}

/// The commit ids resurrected after a run.
pub open spec fn resurrected_after(
    reduced: Seq<Candidate>,
    current: Option<Candidate>,
    st: ReconciliationState,
    built: Seq<bool>,
    enabled: bool,
) -> Set<Seq<char>> {
    st.resurrected().union(
        revived_commits(reduced, current, st, built, enabled, reduced.len() as int),
    )
}

/// Decides where a reduced candidate goes.
pub fn classify(c: &Candidate, current: &Option<Candidate>, state: &ReconciliationState) -> (r:
    Disposition)
    ensures
        r == disposition(*c, *current, state.emitted(), state.resurrected()),
{
    let is_cur = match current {
        Some(cur) => c.id == cur.id && c.at == cur.at && c.version == cur.version,
        None => false,
    };
    if is_cur {
        Disposition::Current
    } else if !state.was_emitted(&c.version.sha) {
        Disposition::New
    } else if !state.was_resurrected(&c.version.sha) {
        Disposition::Stuck
    } else {
        Disposition::Settled
    }
}

/// Decides whether resurrection is on for a run.
pub fn resurrection_enabled(current: &Option<Candidate>, now: i128, disabled: bool) -> (r: bool)
    ensures
        r == resurrection_allowed(*current, now as int, disabled),
{
    if disabled {
        return false;
    }
    match current {
        None => true,
        Some(cur) => {
            if cur.at >= SENTINEL_NANOS {
                false
            } else {
                match now.checked_sub(cur.at) {
                    Some(d) => d >= COOLDOWN_NANOS,
                    None => now > cur.at,
                }
            }
        },
    }
}

/// Builds the synthetic version that resurrects a stuck candidate.
pub fn resurrect(c: &Candidate, now: &Moment) -> (r: Candidate)
    ensures
        r == resurrection_of(*c, *now),
{
    Candidate {
        id: c.id,
        at: now.nanos,
        version: Version {
            iid: c.version.iid.clone(),
            committed_date: now.text.clone(),
            sha: c.version.sha.clone(),
        },
    }
}

/// One run over the reduced candidates (one per entity): reports the current
/// version unmodified whenever there is one, and the new entries as they are;
/// resurrects the stuck ones that have no build status when resurrection is
/// on; drops the rest; and records what it reported in the state. `built[i]`
/// tells whether the commit of `reduced[i]` has any build status; it is read
/// for stuck entries only. Hands back the reported candidates in output order,
/// and whether the state changed.
pub fn reconcile(
    reduced: &Vec<Candidate>,
    current: &Option<Candidate>,
    built: &Vec<bool>,
    now: &Moment,
    disabled: bool,
    state: &mut ReconciliationState,
) -> (r: (Vec<Candidate>, bool))
    requires
        built@.len() == reduced@.len(),
        old(state).wf(),
    ensures
        final(state).wf(),
        final(state).emitted() == emitted_after(reduced@, *current, *old(state)),
        final(state).resurrected() == resurrected_after(
            reduced@,
            *current,
            *old(state),
            built@,
            resurrection_allowed(*current, now.nanos as int, disabled),
        ),
        ordered(r.0@),
        forall|x: Candidate|
            #[trigger] r.0@.contains(x) <==> reported(
                reduced@,
                *current,
                *old(state),
                built@,
                *now,
                resurrection_allowed(*current, now.nanos as int, disabled),
                x,
            ),
        current is Some ==> r.0@.contains(current.unwrap()),
        r.1 <==> (final(state).emitted() != old(state).emitted() || final(state).resurrected()
            != old(state).resurrected()),
{
    let ghost st0 = *state;
    let ghost s = reduced@;
    let ghost cur = *current;
    let enabled = resurrection_enabled(current, now.nanos, disabled);
    let mut out: Vec<Candidate> = Vec::new();
    let mut fresh: Vec<String> = Vec::new();
    let mut revived: Vec<String> = Vec::new();
    let mut i: usize = 0;
    while i < reduced.len()
        invariant
            s == reduced@,
            cur == *current,
            *state == st0,
            st0.wf(),
            built@.len() == s.len(),
            i <= s.len(),
            ordered(out@),
            forall|x: Candidate|
                #[trigger] out@.contains(x) <==> reported_among(
                    s,
                    cur,
                    st0,
                    built@,
                    *now,
                    enabled,
                    i as int,
                    x,
                ),
            text_set(fresh@) == new_commits(s, cur, st0, i as int),
            text_set(revived@) == revived_commits(s, cur, st0, built@, enabled, i as int),
            fresh@.len() > 0 ==> exists|t: Seq<char>|
                !st0.emitted().contains(t) && new_commits(s, cur, st0, i as int).contains(t),
            revived@.len() > 0 ==> exists|t: Seq<char>|
                !st0.resurrected().contains(t) && revived_commits(
                    s,
                    cur,
                    st0,
                    built@,
                    enabled,
                    i as int,
                ).contains(t),
            enabled == resurrection_allowed(cur, now.nanos as int, disabled),
        decreases s.len() - i,
    {
        let c = &reduced[i];
        let d = classify(c, current, state);
        let ghost out0 = out@;
        let ghost fresh0 = fresh@;
        let ghost revived0 = revived@;
        let mut taken = false;
        if d == Disposition::New {
            proof {
                lemma_text_set_push(fresh@, c.version.sha);
            }
            fresh.push(c.version.sha.clone());
            insert_in_order(&mut out, c.duplicate());
            taken = true;
        } else if d == Disposition::Stuck && enabled && !built[i] {
            proof {
                lemma_text_set_push(revived@, c.version.sha);
            }
            revived.push(c.version.sha.clone());
            insert_in_order(&mut out, resurrect(c, now));
            taken = true;
        }
        proof {
            let n = i as int;
            assert forall|x: Candidate|
                #[trigger] out@.contains(x) <==> reported_among(
                    s,
                    cur,
                    st0,
                    built@,
                    *now,
                    enabled,
                    n + 1,
                    x,
                ) by {
                if reported_among(s, cur, st0, built@, *now, enabled, n + 1, x) {
                    if exists|j: int|
                        0 <= j < n + 1 && #[trigger] passes(s, cur, st0, j) && s[j] == x {
                        let j = choose|j: int|
                            0 <= j < n + 1 && #[trigger] passes(s, cur, st0, j) && s[j] == x;
                        if j < n {
                            assert(reported_among(s, cur, st0, built@, *now, enabled, n, x));
                        }
                    } else {
                        let j = choose|j: int|
                            0 <= j < n + 1 && #[trigger] resurrects(s, cur, st0, built@, enabled, j)
                                && x == resurrection_of(s[j], *now);
                        if j < n {
                            assert(reported_among(s, cur, st0, built@, *now, enabled, n, x));
                        }
                    }
                }
                if out@.contains(x) && out0.contains(x) {
                    assert(reported_among(s, cur, st0, built@, *now, enabled, n, x));
                    if exists|j: int| 0 <= j < n && #[trigger] passes(s, cur, st0, j) && s[j] == x {
                        let j = choose|j: int|
                            0 <= j < n && #[trigger] passes(s, cur, st0, j) && s[j] == x;
                        assert(passes(s, cur, st0, j));
                    } else {
                        let j = choose|j: int|
                            0 <= j < n && #[trigger] resurrects(s, cur, st0, built@, enabled, j) && x
                                == resurrection_of(s[j], *now);
                        assert(resurrects(s, cur, st0, built@, enabled, j));
                    }
                }
                if out@.contains(x) && !out0.contains(x) {
                    if d == Disposition::New {
                        assert(passes(s, cur, st0, n));
                    } else {
                        assert(resurrects(s, cur, st0, built@, enabled, n));
                    }
                }
                if !reported_among(s, cur, st0, built@, *now, enabled, n, x) && !taken {
                    assert(!passes(s, cur, st0, n));
                    assert(!resurrects(s, cur, st0, built@, enabled, n));
                }
            }
            let sha = s[n].version.sha@;
            if d == Disposition::New {
                assert(new_commits(s, cur, st0, n + 1) =~= new_commits(s, cur, st0, n).insert(sha));
                assert(!st0.emitted().contains(sha) && new_commits(s, cur, st0, n + 1).contains(
                    sha,
                ));
            } else {
                assert(new_commits(s, cur, st0, n + 1) =~= new_commits(s, cur, st0, n));
                if fresh@.len() > 0 {
                    let t = choose|t: Seq<char>|
                        !st0.emitted().contains(t) && new_commits(s, cur, st0, n).contains(t);
                }
            }
            if resurrects(s, cur, st0, built@, enabled, n) {
                assert(revived_commits(s, cur, st0, built@, enabled, n + 1) =~= revived_commits(
                    s,
                    cur,
                    st0,
                    built@,
                    enabled,
                    n,
                ).insert(sha));
                assert(!st0.resurrected().contains(sha) && revived_commits(
                    s,
                    cur,
                    st0,
                    built@,
                    enabled,
                    n + 1,
                ).contains(sha));
            } else {
                assert(revived_commits(s, cur, st0, built@, enabled, n + 1) =~= revived_commits(
                    s,
                    cur,
                    st0,
                    built@,
                    enabled,
                    n,
                ));
                if revived@.len() > 0 {
                    let t = choose|t: Seq<char>|
                        !st0.resurrected().contains(t) && revived_commits(
                            s,
                            cur,
                            st0,
                            built@,
                            enabled,
                            n,
                        ).contains(t);
                }
            }
        }
        i = i + 1;
    }
    let ghost found = out@;
    if let Some(cur_c) = current {
        insert_in_order(&mut out, cur_c.duplicate());
    }
    proof {
        assert forall|x: Candidate|
            #[trigger] out@.contains(x) <==> reported(s, cur, st0, built@, *now, enabled, x) by {
            assert(found.contains(x) <==> reported_among(
                s,
                cur,
                st0,
                built@,
                *now,
                enabled,
                s.len() as int,
                x,
            ));
        }
    }
    let changed = fresh.len() > 0 || revived.len() > 0;
    let mut k: usize = 0;
    while k < fresh.len()
        invariant
            k <= fresh@.len(),
            state.wf(),
            state.emitted() == st0.emitted().union(text_set(fresh@.subrange(0, k as int))),
            state.resurrected() == st0.resurrected(),
        decreases fresh@.len() - k,
    {
        state.mark_emitted(&fresh[k]);
        proof {
            lemma_text_set_prefix(fresh@, k as int);
            assert(state.emitted() =~= st0.emitted().union(text_set(fresh@.subrange(0, k + 1))));
        }
        k = k + 1;
    }
    assert(fresh@.subrange(0, fresh@.len() as int) =~= fresh@);
    let ghost mid = *state;
    let mut k: usize = 0;
    while k < revived.len()
        invariant
            k <= revived@.len(),
            state.wf(),
            state.emitted() == mid.emitted(),
            mid.emitted() == emitted_after(s, cur, st0),
            text_set(revived@) == revived_commits(s, cur, st0, built@, enabled, s.len() as int),
            state.resurrected() == st0.resurrected().union(
                text_set(revived@.subrange(0, k as int)),
            ),
        decreases revived@.len() - k,
    {
        proof {
            let t = revived@[k as int]@;
            assert(text_set(revived@).contains(t));
            let j = choose|j: int|
                0 <= j < s.len() && #[trigger] resurrects(s, cur, st0, built@, enabled, j)
                    && s[j].version.sha@ == t;
            assert(st0.emitted().contains(t));
            assert(state.emitted().insert(t) =~= state.emitted());
        }
        state.mark_resurrected(&revived[k]);
        proof {
            lemma_text_set_prefix(revived@, k as int);
            assert(state.resurrected() =~= st0.resurrected().union(
                text_set(revived@.subrange(0, k + 1)),
            ));
        }
        k = k + 1;
    }
    assert(revived@.subrange(0, revived@.len() as int) =~= revived@);
    proof {
        if changed {
            if fresh@.len() > 0 {
                let t = choose|t: Seq<char>|
                    !st0.emitted().contains(t) && new_commits(s, cur, st0, s.len() as int).contains(
                        t,
                    );
                assert(state.emitted().contains(t));
            } else {
                let t = choose|t: Seq<char>|
                    !st0.resurrected().contains(t) && revived_commits(
                        s,
                        cur,
                        st0,
                        built@,
                        enabled,
                        s.len() as int,
                    ).contains(t);
                assert(state.resurrected().contains(t));
            }
        } else {
            assert(text_set(fresh@) =~= Set::<Seq<char>>::empty());
            assert(text_set(revived@) =~= Set::<Seq<char>>::empty());
            assert(state.emitted() =~= st0.emitted());
            assert(state.resurrected() =~= st0.resurrected());
        }
    }
    (out, changed)
}

} // verus!
