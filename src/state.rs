use vstd::prelude::*;

verus! {

/// The commit ids that a list of texts holds.
pub open spec fn text_set(v: Seq<String>) -> Set<Seq<char>> {
    Set::new(|t: Seq<char>| exists|i: int| 0 <= i < v.len() && (#[trigger] v[i])@ == t)
}

/// Appending a text adds its content to the set of a list.
pub proof fn lemma_text_set_push(v: Seq<String>, t: String)
    ensures
        text_set(v.push(t)) == text_set(v).insert(t@),
{
    let w = v.push(t);
    assert forall|x: Seq<char>| text_set(v).insert(t@).contains(x) implies text_set(w).contains(x) by {
        if x == t@ {
            assert(w[v.len() as int]@ == x);
        } else {
            let i = choose|i: int| 0 <= i < v.len() && (#[trigger] v[i])@ == x;
            assert(w[i]@ == x);
        }
    }
    assert forall|x: Seq<char>| text_set(w).contains(x) implies text_set(v).insert(t@).contains(x) by {
        let i = choose|i: int| 0 <= i < w.len() && (#[trigger] w[i])@ == x;
        if i < v.len() {
            assert(v[i]@ == x);
        }
    }
    assert(text_set(w) =~= text_set(v).insert(t@));
}

/// Growing a prefix of a list by one entry adds that entry's content.
pub proof fn lemma_text_set_prefix(v: Seq<String>, k: int)
    requires
        0 <= k < v.len(),
    ensures
        text_set(v.subrange(0, k + 1)) == text_set(v.subrange(0, k)).insert(v[k]@),
{
    assert(v.subrange(0, k + 1) =~= v.subrange(0, k).push(v[k]));
    lemma_text_set_push(v.subrange(0, k), v[k]);
}

/// Whether a list of texts holds a given text.
fn holds_text(v: &Vec<String>, t: &String) -> (r: bool)
    ensures
        r == text_set(v@).contains(t@),
{
    let mut i: usize = 0;
    while i < v.len()
        invariant
            i <= v@.len(),
            forall|k: int| 0 <= k < i ==> (#[trigger] v@[k])@ != t@,
        decreases v@.len() - i,
    {
        if v[i] == *t {
            assert(text_set(v@).contains(t@)) by {
                assert(v@[i as int]@ == t@);
            }
            return true;
        }
        i = i + 1;
    }
    false
}

/// Appends a text to a list unless the list holds it already.
fn add_text(v: &mut Vec<String>, t: &String)
    ensures
        text_set(final(v)@) == text_set(old(v)@).insert(t@),
{
    if !holds_text(v, t) {
        proof {
            lemma_text_set_push(v@, *t);
        }
        v.push(t.clone());
    } else {
        assert(text_set(v@) =~= text_set(v@).insert(t@));
    }
}

/// What earlier runs reported: the commit ids ever emitted, and those of them
/// that were resurrected once. Both only grow.
#[derive(Debug, Clone)]
pub struct ReconciliationState {
    pub returned_shas: Vec<String>,
    pub resurrected_shas: Vec<String>,
}

impl ReconciliationState {
    /// The commit ids ever emitted.
    pub open spec fn emitted(&self) -> Set<Seq<char>> {
        text_set(self.returned_shas@)
    }

    /// The commit ids ever resurrected.
    pub open spec fn resurrected(&self) -> Set<Seq<char>> {
        text_set(self.resurrected_shas@)
    }

    /// Every resurrected commit id was emitted.
    pub open spec fn wf(&self) -> bool {
        self.resurrected().subset_of(self.emitted())
    }

    /// The state of a first run, or of one whose stored state was lost.
    pub fn new() -> (r: ReconciliationState)
        ensures
            r.wf(),
            r.emitted() == Set::<Seq<char>>::empty(),
            r.resurrected() == Set::<Seq<char>>::empty(),
    {
        let r = ReconciliationState { returned_shas: Vec::new(), resurrected_shas: Vec::new() };
        assert(r.emitted() =~= Set::<Seq<char>>::empty());
        assert(r.resurrected() =~= Set::<Seq<char>>::empty());
        r
    }

    /// Rebuilds a state from stored lists; a resurrected id that the emitted
    /// list lacks is counted as emitted, as it must have been.
    pub fn from_lists(returned: Vec<String>, resurrected: Vec<String>) -> (r: ReconciliationState)
        ensures
            r.wf(),
            r.emitted() == text_set(returned@).union(text_set(resurrected@)),
            r.resurrected() == text_set(resurrected@),
            text_set(resurrected@).subset_of(text_set(returned@)) ==> r.emitted() == text_set(
                returned@,
            ),
    {
        let mut st = ReconciliationState { returned_shas: returned, resurrected_shas: Vec::new() };
        let mut i: usize = 0;
        while i < resurrected.len()
            invariant
                i <= resurrected@.len(),
                st.wf(),
                st.emitted() == text_set(returned@).union(text_set(resurrected@.subrange(0, i as int))),
                st.resurrected() == text_set(resurrected@.subrange(0, i as int)),
            decreases resurrected@.len() - i,
        {
            st.mark_resurrected(&resurrected[i]);
            proof {
                lemma_text_set_prefix(resurrected@, i as int);
                assert(st.emitted() =~= text_set(returned@).union(
                    text_set(resurrected@.subrange(0, i + 1)),
                ));
            }
            i = i + 1;
        }
        assert(resurrected@.subrange(0, resurrected@.len() as int) =~= resurrected@);
        proof {
            if text_set(resurrected@).subset_of(text_set(returned@)) {
                assert(st.emitted() =~= text_set(returned@));
            }
        }
        st
    }

    /// The state a run starts from: the stored lists where they could be read,
    /// and the empty state where the store is missing or unreadable.
    pub fn from_stored(stored: Option<(Vec<String>, Vec<String>)>) -> (r: ReconciliationState)
        ensures
            r.wf(),
            match stored {
                Some((returned, resurrected)) => {
                    &&& r.emitted() == text_set(returned@).union(text_set(resurrected@))
                    &&& r.resurrected() == text_set(resurrected@)
                },
                None => r.emitted() == Set::<Seq<char>>::empty() && r.resurrected() == Set::<
                    Seq<char>,
                >::empty(),
            },
    {
        match stored {
            Some((returned, resurrected)) => ReconciliationState::from_lists(returned, resurrected),
            None => ReconciliationState::new(),
        }
    }

    /// Whether a commit id was ever emitted.
    pub fn was_emitted(&self, sha: &String) -> (r: bool)
        ensures
            r == self.emitted().contains(sha@),
    {
        holds_text(&self.returned_shas, sha)
    }

    /// Whether a commit id was ever resurrected.
    pub fn was_resurrected(&self, sha: &String) -> (r: bool)
        ensures
            r == self.resurrected().contains(sha@),
    {
        holds_text(&self.resurrected_shas, sha)
    }

    /// Records a commit id as emitted.
    pub fn mark_emitted(&mut self, sha: &String)
        requires
            old(self).wf(),
        ensures
            final(self).wf(),
            final(self).emitted() == old(self).emitted().insert(sha@),
            final(self).resurrected() == old(self).resurrected(),
    {
        add_text(&mut self.returned_shas, sha);
    }

    /// Records a commit id as resurrected, and so as emitted too.
    pub fn mark_resurrected(&mut self, sha: &String)
        requires
            old(self).wf(),
        ensures
            final(self).wf(),
            final(self).emitted() == old(self).emitted().insert(sha@),
            final(self).resurrected() == old(self).resurrected().insert(sha@),
    {
        add_text(&mut self.returned_shas, sha);
        add_text(&mut self.resurrected_shas, sha);
    }
}

} // verus!
