use vstd::prelude::*;
use std::collections::HashMap;
use crate::time::NANOS_PER_DAY;
use crate::error::CheckError;
use crate::version::{candidate_of, readable, Candidate, Version};

verus! {

/// A window of whole days, in nanoseconds.
pub open spec fn window_nanos(days: u32) -> int {
    days * NANOS_PER_DAY
}

/// The distance between two instants.
pub open spec fn distance(a: int, b: int) -> int {
    if a >= b {
        a - b
    } else {
        b - a
    }
}

/// A candidate is worth keeping next to the current version: it belongs to
/// the current entity, or is newer than the current version, or belongs to
/// another entity and lies within the window around the current version.
pub open spec fn eligible(c: Candidate, current: Option<Candidate>, window: int) -> bool {
    match current {
        None => true,
        Some(cur) => c.id == cur.id || c.at > cur.at || (c.id != cur.id && distance(
            c.at as int,
            cur.at as int,
        ) < window),
    }
}

/// Among the first `n` candidates, the one at `i` is eligible and the latest of
/// its entity; of several equally late ones it is the first.
pub open spec fn latest_among(
    s: Seq<Candidate>,
    current: Option<Candidate>,
    window: int,
    n: int,
    i: int,
) -> bool {
    &&& 0 <= i < n <= s.len()
    &&& eligible(s[i], current, window)
    &&& forall|j: int|
        0 <= j < n && #[trigger] eligible(s[j], current, window) && s[j].id == s[i].id ==> s[j].at
            <= s[i].at && (j < i ==> s[j].at < s[i].at)
}

/// The candidate at `i` is what the reduction keeps for its entity.
pub open spec fn is_latest(s: Seq<Candidate>, current: Option<Candidate>, window: int, i: int) -> bool {
    latest_among(s, current, window, s.len() as int, i)
}

/// No eligible candidate belongs to the current entity.
pub open spec fn current_entity_missing(
    s: Seq<Candidate>,
    current: Option<Candidate>,
    window: int,
) -> bool {
    forall|i: int|
        0 <= i < s.len() && #[trigger] eligible(s[i], current, window) ==> s[i].id
            != current.unwrap().id
}

/// What the latest-per-entity reduction keeps: the latest eligible candidate
/// of each entity, and the current version itself where its entity has none.
pub open spec fn in_reduction(
    s: Seq<Candidate>,
    current: Option<Candidate>,
    window: int,
    x: Candidate,
) -> bool {
    ||| exists|i: int| is_latest(s, current, window, i) && s[i] == x
    ||| current is Some && x == current.unwrap() && current_entity_missing(s, current, window)
}

/// Output order: by timestamp, ties by entity id.
pub open spec fn before(a: Candidate, b: Candidate) -> bool {
    a.at < b.at || (a.at == b.at && a.id < b.id)
}

/// Strictly ascending by timestamp, ties by entity id.
pub open spec fn strictly_ordered(s: Seq<Candidate>) -> bool {
    forall|i: int, j: int| 0 <= i < j < s.len() ==> before(#[trigger] s[i], #[trigger] s[j])
}

/// Ascending by timestamp, ties by entity id, equal keys side by side.
pub open spec fn ordered(s: Seq<Candidate>) -> bool {
    forall|i: int, j: int| 0 <= i < j < s.len() ==> !before(#[trigger] s[j], #[trigger] s[i])
}

/// No two entries share an entity.
pub open spec fn distinct_ids(s: Seq<Candidate>) -> bool {
    forall|i: int, j: int| 0 <= i < j < s.len() ==> (#[trigger] s[i]).id != (#[trigger] s[j]).id
}

/// Compares two candidates in output order.
pub fn comes_before(a: &Candidate, b: &Candidate) -> (r: bool)
    ensures
        r == before(*a, *b),
{
    a.at < b.at || (a.at == b.at && a.id < b.id)
}

/// Decides eligibility next to the current version, for a window in nanoseconds.
pub fn is_eligible(c: &Candidate, current: &Option<Candidate>, window: i128) -> (r: bool)
    ensures
        r == eligible(*c, *current, window as int),
{
    match current {
        None => true,
        Some(cur) => {
            if c.id == cur.id || c.at > cur.at {
                true
            } else {
                // Here `c` is not later than the current version.
                match cur.at.checked_sub(c.at) {
                    Some(d) => d < window,
                    None => false,
                }
            }
        },
    }
}

/// Inserts a candidate into a strictly ordered list of distinct entities that
/// lacks its entity, keeping the order.
pub fn insert_ordered(v: &mut Vec<Candidate>, c: Candidate)
    requires
        strictly_ordered(old(v)@),
        distinct_ids(old(v)@),
        forall|k: int| 0 <= k < old(v)@.len() ==> (#[trigger] old(v)@[k]).id != c.id,
    ensures
        strictly_ordered(final(v)@),
        distinct_ids(final(v)@),
        final(v)@.len() == old(v)@.len() + 1,
        forall|x: Candidate| final(v)@.contains(x) <==> (old(v)@.contains(x) || x == c),
{
    let ghost s = v@;
    let mut pos: usize = 0;
    while pos < v.len() && comes_before(&v[pos], &c)
        invariant
            v@ == s,
            pos <= s.len(),
            forall|k: int| 0 <= k < pos ==> before(#[trigger] s[k], c),
        decreases s.len() - pos,
    {
        pos = pos + 1;
    }
    proof {
        if pos < s.len() {
            assert(s[pos as int].id != c.id);
            assert forall|k: int| pos <= k < s.len() implies before(c, #[trigger] s[k]) by {
                if k > pos {
                    assert(before(s[pos as int], s[k]));
                }
            }
        }
    }
    v.insert(pos, c);
    proof {
        let t = v@;
        assert(t == s.insert(pos as int, c));
        assert forall|i: int, j: int| 0 <= i < j < t.len() implies before(
            #[trigger] t[i],
            #[trigger] t[j],
        ) by {
            if j < pos {
            } else if j == pos {
            } else if i < pos {
                assert(t[j] == s[j - 1]);
                if j - 1 >= pos {
                    assert(before(c, s[j - 1]));
                }
            } else if i == pos {
                assert(t[j] == s[j - 1]);
            } else {
                assert(t[i] == s[i - 1] && t[j] == s[j - 1]);
            }
        }
        assert forall|i: int, j: int| 0 <= i < j < t.len() implies (#[trigger] t[i]).id
            != (#[trigger] t[j]).id by {
            if j < pos {
            } else if j == pos {
                assert(t[i] == s[i]);
            } else if i < pos {
                assert(t[j] == s[j - 1]);
            } else if i == pos {
                assert(t[j] == s[j - 1]);
            } else {
                assert(t[i] == s[i - 1] && t[j] == s[j - 1]);
            }
        }
        assert forall|x: Candidate| t.contains(x) <==> (s.contains(x) || x == c) by {
            if t.contains(x) {
                let k = choose|k: int| 0 <= k < t.len() && t[k] == x;
                if k < pos {
                    assert(s[k] == x);
                } else if k > pos {
                    assert(s[k - 1] == x);
                }
            }
            if s.contains(x) {
                let k = choose|k: int| 0 <= k < s.len() && s[k] == x;
                if k < pos {
                    assert(t[k] == x);
                } else {
                    assert(t[k + 1] == x);
                }
            }
            if x == c {
                assert(t[pos as int] == x);
            }
        }
    }
}

/// Inserts a candidate into an ordered list, after the entries that come
/// before it or share its key.
pub fn insert_in_order(v: &mut Vec<Candidate>, c: Candidate)
    requires
        ordered(old(v)@),
    ensures
        ordered(final(v)@),
        final(v)@.len() == old(v)@.len() + 1,
        forall|x: Candidate| final(v)@.contains(x) <==> (old(v)@.contains(x) || x == c),
{
    let ghost s = v@;
    let mut pos: usize = 0;
    while pos < v.len() && !comes_before(&c, &v[pos])
        invariant
            v@ == s,
            pos <= s.len(),
            forall|k: int| 0 <= k < pos ==> !before(c, #[trigger] s[k]),
        decreases s.len() - pos,
    {
        pos = pos + 1;
    }
    proof {
        if pos < s.len() {
            assert forall|k: int| pos <= k < s.len() implies !before(#[trigger] s[k], c) by {
                if k > pos {
                    assert(!before(s[k], s[pos as int]));
                }
            }
        }
    }
    v.insert(pos, c);
    proof {
        let t = v@;
        assert(t == s.insert(pos as int, c));
        assert forall|i: int, j: int| 0 <= i < j < t.len() implies !before(
            #[trigger] t[j],
            #[trigger] t[i],
        ) by {
            if j < pos {
            } else if j == pos {
            } else if i < pos {
                assert(t[j] == s[j - 1]);
                if j - 1 >= pos {
                    assert(!before(s[j - 1], c));
                }
            } else if i == pos {
                assert(t[j] == s[j - 1]);
            } else {
                assert(t[i] == s[i - 1] && t[j] == s[j - 1]);
            }
        }
        assert forall|x: Candidate| t.contains(x) <==> (s.contains(x) || x == c) by {
            if t.contains(x) {
                let k = choose|k: int| 0 <= k < t.len() && t[k] == x;
                if k < pos {
                    assert(s[k] == x);
                } else if k > pos {
                    assert(s[k - 1] == x);
                }
            }
            if s.contains(x) {
                let k = choose|k: int| 0 <= k < s.len() && s[k] == x;
                if k < pos {
                    assert(t[k] == x);
                } else {
                    assert(t[k + 1] == x);
                }
            }
            if x == c {
                assert(t[pos as int] == x);
            }
        }
    }
}

/// Keeps, per entity, the latest candidate that is eligible next to the current
/// version (the first of equally late ones), puts the current version back
/// where its entity kept nothing, and orders the result by timestamp, ties by
/// entity id.
pub fn reduce_latest(
    candidates: &Vec<Candidate>,
    current: &Option<Candidate>,
    window_days: u32,
) -> (r: Vec<Candidate>)
    ensures
        strictly_ordered(r@),
        distinct_ids(r@),
        forall|x: Candidate|
            r@.contains(x) <==> in_reduction(candidates@, *current, window_nanos(window_days), x),
{
    let ghost s = candidates@;
    let ghost cur = *current;
    let ghost w = window_nanos(window_days);
    let window: i128 = window_days as i128 * NANOS_PER_DAY;
    broadcast use vstd::std_specs::hash::group_hash_axioms;
    // The latest eligible candidate of each entity so far, keyed by entity id,
    // and the ids in the order they were first met.
    let mut latest: HashMap<u64, Candidate> = HashMap::new();
    let mut ids: Vec<u64> = Vec::new();
    let ghost mut at_index: Map<u64, int> = Map::empty();
    let mut n: usize = 0;
    while n < candidates.len()
        invariant
            s == candidates@,
            cur == *current,
            w == window as int,
            n <= s.len(),
            forall|a: int, b: int| 0 <= a < b < ids@.len() ==> ids@[a] != ids@[b],
            forall|id: u64| #[trigger] latest@.contains_key(id) <==> ids@.contains(id),
            forall|id: u64|
                #[trigger] latest@.contains_key(id) ==> at_index.contains_key(id) && 0
                    <= at_index[id] < n && latest@[id] == s[at_index[id]] && s[at_index[id]].id
                    == id && latest_among(s, cur, w, n as int, at_index[id]),
            forall|i: int|
                0 <= i < n && #[trigger] eligible(s[i], cur, w) ==> latest@.contains_key(s[i].id),
        decreases s.len() - n,
    {
        let c = &candidates[n];
        let ghost m0 = latest@;
        let ghost ix0 = at_index;
        let ghost ids0 = ids@;
        if is_eligible(c, current, window) {
            let replace = match latest.get(&c.id) {
                Some(e) => c.at > e.at,
                None => {
                    ids.push(c.id);
                    true
                },
            };
            if replace {
                latest.insert(c.id, c.duplicate());
                proof {
                    at_index = at_index.insert(c.id, n as int);
                }
            }
            proof {
                assert forall|id: u64| #[trigger] latest@.contains_key(id) implies at_index.contains_key(id) && 0
                    <= at_index[id] < n + 1 && latest@[id] == s[at_index[id]] && s[at_index[id]].id
                    == id && latest_among(s, cur, w, n + 1, at_index[id]) by {
                    if id != c.id {
                        assert(m0.contains_key(id));
                    } else if m0.contains_key(id) && !replace {
                        let i0 = ix0[id];
                        assert(latest_among(s, cur, w, n as int, i0));
                    } else {
                        assert(at_index[id] == n);
                        assert forall|j: int|
                            0 <= j < n + 1 && #[trigger] eligible(s[j], cur, w) && s[j].id
                                == s[n as int].id implies s[j].at <= s[n as int].at && (j < n
                            ==> s[j].at < s[n as int].at) by {
                            if j < n {
                                assert(m0.contains_key(id));
                                assert(latest_among(s, cur, w, n as int, ix0[id]));
                            }
                        }
                    }
                }
                assert forall|id: u64| #[trigger] latest@.contains_key(id) <==> ids@.contains(id) by {
                    if id != c.id {
                        if ids@.contains(id) {
                            let k = choose|k: int| 0 <= k < ids@.len() && ids@[k] == id;
                            assert(ids0.contains(id)) by {
                                assert(ids0[k] == id);
                            }
                        }
                        if m0.contains_key(id) {
                            assert(ids0.contains(id));
                            let k = choose|k: int| 0 <= k < ids0.len() && ids0[k] == id;
                            assert(ids@[k] == id);
                        }
                    } else {
                        if m0.contains_key(id) {
                            assert(ids0.contains(id));
                            let k = choose|k: int| 0 <= k < ids0.len() && ids0[k] == id;
                            assert(ids@[k] == id);
                        } else {
                            assert(ids@[ids@.len() - 1] == id);
                        }
                    }
                }
                assert forall|a: int, b: int| 0 <= a < b < ids@.len() implies ids@[a] != ids@[b] by {
                    if !m0.contains_key(c.id) && b == ids@.len() - 1 {
                        assert(ids@.contains(ids@[a]));
                    }
                }
            }
        } else {
            proof {
                assert forall|id: u64| #[trigger] latest@.contains_key(id) implies at_index.contains_key(id) && 0
                    <= at_index[id] < n + 1 && latest@[id] == s[at_index[id]] && s[at_index[id]].id
                    == id && latest_among(s, cur, w, n + 1, at_index[id]) by {
                    assert(latest_among(s, cur, w, n as int, at_index[id]));
                }
            }
        }
        n = n + 1;
    }
    // The kept candidates, in the order their entities were first met.
    let mut best: Vec<Candidate> = Vec::new();
    let ghost mut src: Seq<int> = Seq::empty();
    let mut k: usize = 0;
    while k < ids.len()
        invariant
            forall|a: int, b: int| 0 <= a < b < ids@.len() ==> ids@[a] != ids@[b],
            forall|id: u64| #[trigger] latest@.contains_key(id) <==> ids@.contains(id),
            forall|id: u64|
                #[trigger] latest@.contains_key(id) ==> at_index.contains_key(id) && 0
                    <= at_index[id] < s.len() && latest@[id] == s[at_index[id]] && s[at_index[id]].id
                    == id && latest_among(s, cur, w, s.len() as int, at_index[id]),
            k <= ids@.len(),
            best@.len() == k,
            src.len() == k,
            forall|m: int| 0 <= m < k ==> #[trigger] best@[m] == latest@[ids@[m]] && src[m]
                == at_index[ids@[m]] && best@[m].id == ids@[m],
        decreases ids@.len() - k,
    {
        assert(ids@.contains(ids@[k as int]));
        if let Some(e) = latest.get(&ids[k]) {
            best.push(e.duplicate());
            proof {
                src = src.push(at_index[ids@[k as int]]);
            }
        }
        k = k + 1;
    }
    proof {
        assert forall|m: int|
            0 <= m < best@.len() implies 0 <= #[trigger] src[m] < s.len() && best@[m] == s[src[m]]
                && latest_among(s, cur, w, s.len() as int, src[m]) by {
            let id = ids@[m];
            assert(ids@.contains(id));
            assert(latest@.contains_key(id));
            assert(best@[m] == latest@[id] && src[m] == at_index[id]);
        }
        assert forall|i: int|
            0 <= i < s.len() && #[trigger] eligible(s[i], cur, w) implies exists|m: int|
                0 <= m < best@.len() && (#[trigger] best@[m]).id == s[i].id by {
            assert(latest@.contains_key(s[i].id));
            assert(ids@.contains(s[i].id));
            let m = choose|m: int| 0 <= m < ids@.len() && ids@[m] == s[i].id;
            assert(best@[m].id == s[i].id);
        }
        assert forall|a: int, b: int| 0 <= a < b < best@.len() implies (#[trigger] best@[a]).id
            != (#[trigger] best@[b]).id by {
        }
    }
    // Every kept candidate is the latest of its entity, and every latest one was kept.
    proof {
        assert forall|x: Candidate| (exists|i: int| is_latest(s, cur, w, i) && s[i] == x) <==> best@.contains(x) by {
            if exists|i: int| is_latest(s, cur, w, i) && s[i] == x {
                let i = choose|i: int| is_latest(s, cur, w, i) && s[i] == x;
                let m = choose|m: int| 0 <= m < best@.len() && (#[trigger] best@[m]).id == s[i].id;
                let i2 = src[m];
                assert(latest_among(s, cur, w, s.len() as int, i2));
                if i2 < i {
                    assert(s[i2].at < s[i].at);
                    assert(s[i].at <= s[i2].at);
                } else if i < i2 {
                    assert(s[i].at < s[i2].at);
                    assert(s[i2].at <= s[i].at);
                }
                assert(best@[m] == x);
            }
            if best@.contains(x) {
                let m = choose|m: int| 0 <= m < best@.len() && best@[m] == x;
                assert(is_latest(s, cur, w, src[m]) && s[src[m]] == x);
            }
        }
    }
    let mut r: Vec<Candidate> = Vec::new();
    let mut k: usize = 0;
    let mut has_current_entity = false;
    while k < best.len()
        invariant
            k <= best@.len(),
            strictly_ordered(r@),
            distinct_ids(r@),
            distinct_ids(best@),
            forall|x: Candidate| r@.contains(x) <==> exists|m: int| 0 <= m < k && best@[m] == x,
            forall|m: int| k <= m < best@.len() ==> forall|x: Candidate| r@.contains(x) ==> x.id != (#[trigger] best@[m]).id,
            cur is Some ==> (has_current_entity <==> exists|m: int| 0 <= m < k && (#[trigger] best@[m]).id == cur.unwrap().id),
            cur == *current,
        decreases best@.len() - k,
    {
        let c = best[k].duplicate();
        proof {
            assert forall|j: int| 0 <= j < r@.len() implies (#[trigger] r@[j]).id != c.id by {
                assert(r@.contains(r@[j]));
            }
        }
        if let Some(cur_c) = current {
            if c.id == cur_c.id {
                has_current_entity = true;
            }
        }
        insert_ordered(&mut r, c);
        proof {
            assert forall|m: int| k + 1 <= m < best@.len() implies forall|x: Candidate| r@.contains(x) ==> x.id != (#[trigger] best@[m]).id by {
                assert(best@[k as int].id != best@[m].id);
            }
            assert forall|x: Candidate| r@.contains(x) <==> exists|m: int| 0 <= m < k + 1 && best@[m] == x by {
                if x == best@[k as int] {
                    assert(exists|m: int| 0 <= m < k + 1 && best@[m] == x);
                }
            }
        }
        k = k + 1;
    }
    proof {
        assert forall|x: Candidate| r@.contains(x) <==> best@.contains(x) by {
            if best@.contains(x) {
                let m = choose|m: int| 0 <= m < best@.len() && best@[m] == x;
            }
        }
        if cur is Some {
            if has_current_entity {
                let m = choose|m: int|
                    0 <= m < best@.len() && (#[trigger] best@[m]).id == cur.unwrap().id;
                assert(eligible(s[src[m]], cur, w));
            } else {
                assert forall|i: int|
                    0 <= i < s.len() && #[trigger] eligible(s[i], cur, w) implies s[i].id
                    != cur.unwrap().id by {
                    let m = choose|m: int|
                        0 <= m < best@.len() && (#[trigger] best@[m]).id == s[i].id;
                }
            }
        }
    }
    let ghost before_current = r@;
    if let Some(cur_c) = current {
        if !has_current_entity {
            proof {
                assert forall|j: int| 0 <= j < r@.len() implies (#[trigger] r@[j]).id
                    != cur_c.id by {
                    assert(r@.contains(r@[j]));
                }
            }
            insert_ordered(&mut r, cur_c.duplicate());
        }
    }
    proof {
        assert forall|x: Candidate| in_reduction(s, cur, w, x) implies r@.contains(x) by {
            if current_entity_missing(s, cur, w) && cur is Some && x == cur.unwrap() {
            } else if exists|i: int| is_latest(s, cur, w, i) && s[i] == x {
                assert(before_current.contains(x));
            }
        }
    }
    r
}

/// The default window around the current version, in days.
pub const DEFAULT_WINDOW_DAYS: u32 = 90;

/// Every entry of the sequence is readable.
pub open spec fn all_readable(s: Seq<Version>) -> bool {
    forall|i: int| 0 <= i < s.len() ==> readable(#[trigger] s[i])
}

/// The candidates that a sequence of versions stands for.
pub open spec fn candidates_of(s: Seq<Version>) -> Seq<Candidate> {
    s.map_values(|v: Version| candidate_of(v))
}

/// The candidate that an optional version stands for.
pub open spec fn current_of(v: Option<&Version>) -> Option<Candidate> {
    match v {
        Some(x) => Some(candidate_of(*x)),
        None => None,
    }
}

/// Reads each version, reduces them next to the current version with the
/// default window, and hands back the kept versions in output order.
pub fn filter_versions(all_versions: Vec<Version>, current: Option<&Version>) -> (r: Result<
    Vec<Version>,
    CheckError,
>)
    ensures
        r is Ok <==> all_readable(all_versions@) && (current matches Some(c) ==> readable(*c)),
        r matches Err(e) ==> (e is InvalidIid || e is InvalidTimestamp),
        r matches Ok(out) ==> strictly_ordered(candidates_of(out@)),
        r matches Ok(out) ==> forall|v: Version|
            #[trigger] out@.contains(v) <==> (readable(v) && in_reduction(
                candidates_of(all_versions@),
                current_of(current),
                window_nanos(DEFAULT_WINDOW_DAYS),
                candidate_of(v),
            )),
{
    let ghost all = all_versions@;
    let mut cands: Vec<Candidate> = Vec::new();
    let mut i: usize = 0;
    while i < all_versions.len()
        invariant
            all == all_versions@,
            i <= all.len(),
            cands@.len() == i,
            forall|k: int| 0 <= k < i ==> #[trigger] cands@[k] == candidate_of(all[k]),
            forall|k: int| 0 <= k < i ==> readable(#[trigger] all[k]),
        decreases all.len() - i,
    {
        match Candidate::from_version(&all_versions[i]) {
            Ok(c) => cands.push(c),
            Err(e) => return Err(e),
        }
        i = i + 1;
    }
    let cur: Option<Candidate> = match current {
        Some(v) => match Candidate::from_version(v) {
            Ok(c) => Some(c),
            Err(e) => return Err(e),
        },
        None => None,
    };
    assert(cur == current_of(current));
    assert(cands@ == candidates_of(all)) by {
        assert(cands@ =~= candidates_of(all));
    }
    let red = reduce_latest(&cands, &cur, DEFAULT_WINDOW_DAYS);
    let ghost w = window_nanos(DEFAULT_WINDOW_DAYS);
    // Each kept candidate is what its own version stands for.
    assert forall|x: Candidate| red@.contains(x) implies readable(x.version) && x == candidate_of(
        x.version,
    ) by {
        if exists|i: int| is_latest(cands@, cur, w, i) && cands@[i] == x {
            let i = choose|i: int| is_latest(cands@, cur, w, i) && cands@[i] == x;
            assert(readable(all[i]));
        }
    }
    let mut out: Vec<Version> = Vec::new();
    let mut k: usize = 0;
    while k < red.len()
        invariant
            k <= red@.len(),
            out@.len() == k,
            forall|m: int| 0 <= m < k ==> #[trigger] out@[m] == red@[m].version,
        decreases red@.len() - k,
    {
        out.push(red[k].version.duplicate());
        k = k + 1;
    }
    proof {
        let mapped = candidates_of(out@);
        assert forall|m: int| 0 <= m < red@.len() implies #[trigger] mapped[m] == red@[m] by {
            assert(red@.contains(red@[m]));
        }
        assert(mapped =~= red@);
        assert(strictly_ordered(candidates_of(out@)));
        assert(cands@ == candidates_of(all_versions@));
        assert forall|v: Version|
            #[trigger] out@.contains(v) <==> (readable(v) && in_reduction(
                candidates_of(all_versions@),
                current_of(current),
                window_nanos(DEFAULT_WINDOW_DAYS),
                candidate_of(v),
            )) by {
            if out@.contains(v) {
                let m = choose|m: int| 0 <= m < out@.len() && out@[m] == v;
                assert(red@.contains(red@[m]));
            }
            if readable(v) && in_reduction(cands@, cur, w, candidate_of(v)) {
                assert(red@.contains(candidate_of(v)));
                let m = choose|m: int| 0 <= m < red@.len() && red@[m] == candidate_of(v);
                assert(out@[m] == v);
            }
        }
    }
    Ok(out)
}

} // verus!
