//! The process-local marks a cognitive cycle keeps about the memories it has met:
//! which were inspected, exposed to the host's context, or are exhausted.
use vstd::prelude::*;
use std::collections::BTreeSet;
use crate::lifecycle::UseKind;

verus! {

broadcast use vstd::laws_cmp::group_laws_cmp;

/// The memories a cycle has inspected, exposed and exhausted.
pub struct CycleMarks {
    inspected: BTreeSet<u128>,
    exposed: BTreeSet<u128>,
    exhausted: BTreeSet<u128>,
}

/// Adds every identifier of `ids` to `set`.
fn insert_all(set: &mut BTreeSet<u128>, ids: &[u128])
    ensures
        final(set)@ == old(set)@ + ids@.to_set(),
{
    let mut i: usize = 0;
    while i < ids.len()
        invariant
            i <= ids@.len(),
            set@ == old(set)@ + ids@.take(i as int).to_set(),
        decreases ids@.len() - i,
    {
        let ghost before = set@;
        set.insert(ids[i]);
        proof {
            assert(ids@.take(i + 1) =~= ids@.take(i as int).push(ids@[i as int]));
            ids@.take(i as int).lemma_push_to_set_commute(ids@[i as int]);
            assert(set@ =~= old(set)@ + ids@.take(i + 1).to_set());
        }
        i = i + 1;
    }
    assert(ids@.take(ids@.len() as int) =~= ids@);
}

impl CycleMarks {
    /// The memories inspected in the cycle.
    pub closed spec fn inspected_set(&self) -> Set<u128> {
        self.inspected@
    }

    /// The memories the host exposed to its context.
    pub closed spec fn exposed_set(&self) -> Set<u128> {
        self.exposed@
    }

    /// The memories the cycle no longer needs to surface.
    pub closed spec fn exhausted_set(&self) -> Set<u128> {
        self.exhausted@
    }

    /// The marks of a new cycle: none.
    pub fn new() -> (marks: CycleMarks)
        ensures
            marks.inspected_set() == Set::<u128>::empty(),
            marks.exposed_set() == Set::<u128>::empty(),
            marks.exhausted_set() == Set::<u128>::empty(),
    {
        CycleMarks { inspected: BTreeSet::new(), exposed: BTreeSet::new(), exhausted: BTreeSet::new() }
    }

    /// Inspected memories are marked inspected and exhausted.
    pub fn inspect(&mut self, objects: &[u128])
        ensures
            final(self).inspected_set() == old(self).inspected_set() + objects@.to_set(),
            final(self).exhausted_set() == old(self).exhausted_set() + objects@.to_set(),
            final(self).exposed_set() == old(self).exposed_set(),
    {
        insert_all(&mut self.inspected, objects);
        insert_all(&mut self.exhausted, objects);
    }

    /// Applies host feedback of `kind` about `objects`: exposure marks them exposed,
    /// abandonment or reference marks them exhausted. Whether the objects seed the
    /// cycle's activation, as following does, is returned.
    pub fn feedback(&mut self, kind: UseKind, objects: &[u128]) -> (seeds_activation: bool)
        ensures
            seeds_activation == (kind == UseKind::Followed),
            final(self).inspected_set() == old(self).inspected_set(),
            final(self).exposed_set() == if kind == UseKind::ExposedToContext {
                old(self).exposed_set() + objects@.to_set()
            } else {
                old(self).exposed_set()
            },
            final(self).exhausted_set() == if kind == UseKind::Abandoned || kind
                == UseKind::ReferencedOrActedOn {
                old(self).exhausted_set() + objects@.to_set()
            } else {
                old(self).exhausted_set()
            },
    {
        if kind == UseKind::ExposedToContext {
            insert_all(&mut self.exposed, objects);
        }
        if kind == UseKind::Abandoned || kind == UseKind::ReferencedOrActedOn {
            insert_all(&mut self.exhausted, objects);
        }
        kind == UseKind::Followed
    }

    /// Whether `object` is exhausted for the cycle.
    pub fn is_exhausted(&self, object: u128) -> (exhausted: bool)
        ensures
            exhausted == self.exhausted_set().contains(object),
    {
        self.exhausted.contains(&object)
    }
}

} // verus!
