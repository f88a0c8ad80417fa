//! Which changelists show their files.

use crate::perforce::changelists::{ChangelistId, PerforceChangelist, PerforceChangelistView};
use crate::text;
use std::collections::HashSet;
use vstd::prelude::*;

verus! {

broadcast use vstd::std_specs::hash::group_hash_axioms;

/// The changelists that show their files.
pub struct Expanded {
    default: bool,
    numbers: HashSet<u32>,
}

impl View for Expanded {
    type V = Set<ChangelistId>;

    closed spec fn view(&self) -> Set<ChangelistId> {
        Set::new(
            |id: ChangelistId|
                match id {
                    ChangelistId::Default => self.default,
                    ChangelistId::Numbered(n) => self.numbers@.contains(n),
                },
        )
    }
}

/// The ids of some changelists.
pub open spec fn ids_of(changelists: Seq<PerforceChangelistView>) -> Set<ChangelistId> {
    Set::new(
        |id: ChangelistId|
            exists|i: int| 0 <= i < changelists.len() && (#[trigger] changelists[i]).id == id,
    )
}

/// `expanded` with one changelist switched.
pub open spec fn toggled(expanded: Set<ChangelistId>, id: ChangelistId) -> Set<ChangelistId> {
    if expanded.contains(id) {
        expanded.remove(id)
    } else {
        expanded.insert(id)
    }
}

/// Whether there are changelists and all of them show their files.
pub open spec fn all_expanded(
    changelists: Seq<PerforceChangelistView>,
    expanded: Set<ChangelistId>,
) -> bool {
    &&& changelists.len() > 0
    &&& forall|i: int|
        0 <= i < changelists.len() ==> expanded.contains((#[trigger] changelists[i]).id)
}

/// Nothing where all changelists show their files, and all of them otherwise.
pub open spec fn all_toggled(
    changelists: Seq<PerforceChangelistView>,
    expanded: Set<ChangelistId>,
) -> Set<ChangelistId> {
    if all_expanded(changelists, expanded) {
        Set::empty()
    } else {
        ids_of(changelists)
    }
}

impl Expanded {
    /// No changelist shows its files.
    pub fn new() -> (r: Expanded)
        ensures
            r@ == Set::<ChangelistId>::empty(),
    {
        let r = Expanded { default: false, numbers: HashSet::new() };
        assert(r@ =~= Set::<ChangelistId>::empty());
        r
    }

    /// Whether a changelist shows its files.
    pub fn contains(&self, id: ChangelistId) -> (r: bool)
        ensures
            r == self@.contains(id),
    {
        match id {
            ChangelistId::Default => self.default,
            ChangelistId::Numbered(n) => self.numbers.contains(&n),
        }
    }

    /// Lets a changelist show its files.
    pub fn insert(&mut self, id: ChangelistId)
        ensures
            final(self)@ == old(self)@.insert(id),
    {
        match id {
            ChangelistId::Default => {
                self.default = true;
            },
            ChangelistId::Numbered(n) => {
                self.numbers.insert(n);
            },
        }
        assert(self@ =~= old(self)@.insert(id));
    }

    /// Switches a changelist.
    pub fn toggle(&mut self, id: ChangelistId)
        ensures
            final(self)@ == toggled(old(self)@, id),
    {
        if self.contains(id) {
            match id {
                ChangelistId::Default => {
                    self.default = false;
                },
                ChangelistId::Numbered(n) => {
                    self.numbers.remove(&n);
                },
            }
            assert(self@ =~= old(self)@.remove(id));
        } else {
            self.insert(id);
        }
    }

    /// Whether there are changelists and all of them show their files.
    pub fn holds_all(&self, changelists: &Vec<PerforceChangelist>) -> (r: bool)
        ensures
            r == all_expanded(text::views(changelists@), self@),
    {
        let ghost all = text::views(changelists@);
        let n: usize = changelists.len();
        let mut i: usize = 0;
        while i < n
            invariant
                i <= n,
                n == changelists@.len(),
                all == text::views(changelists@),
                forall|k: int| 0 <= k < i ==> self@.contains((#[trigger] all[k]).id),
            decreases n - i,
        {
            assert(all[i as int].id == changelists@[i as int].id);
            if !self.contains(changelists[i].id) {
                return false;
            }
            i = i + 1;
        }
        n > 0
    }

    /// The ids of all changelists.
    pub fn all_of(changelists: &Vec<PerforceChangelist>) -> (r: Expanded)
        ensures
            r@ == ids_of(text::views(changelists@)),
    {
        let ghost all = text::views(changelists@);
        let n: usize = changelists.len();
        let mut out = Expanded::new();
        let mut i: usize = 0;
        assert(out@ =~= ids_of(all.take(0)));
        while i < n
            invariant
                i <= n,
                n == changelists@.len(),
                all == text::views(changelists@),
                out@ == ids_of(all.take(i as int)),
            decreases n - i,
        {
            out.insert(changelists[i].id);
            proof {
                lemma_ids_of_next(all, i as int);
                assert(all[i as int].id == changelists@[i as int].id);
            }
            i = i + 1;
        }
        assert(all.take(n as int) =~= all);
        out
    }
}

proof fn lemma_ids_of_next(all: Seq<PerforceChangelistView>, i: int)
    requires
        0 <= i < all.len(),
    ensures
        ids_of(all.take(i + 1)) == ids_of(all.take(i)).insert(all[i].id),
{
    let shorter = all.take(i);
    let longer = all.take(i + 1);
    assert forall|id: ChangelistId| #[trigger]
        ids_of(longer).contains(id) == ids_of(shorter).insert(all[i].id).contains(id) by {
        if ids_of(longer).contains(id) {
            let k = choose|k: int| 0 <= k < longer.len() && (#[trigger] longer[k]).id == id;
            if k < i {
                assert(shorter[k].id == id);
            }
        }
        if ids_of(shorter).contains(id) {
            let k = choose|k: int| 0 <= k < shorter.len() && (#[trigger] shorter[k]).id == id;
            assert(longer[k].id == id);
        }
        assert(longer[i].id == all[i].id);
    }
    assert(ids_of(longer) =~= ids_of(shorter).insert(all[i].id));
}

/// Switching a changelist twice changes nothing.
pub proof fn toggling_twice_changes_nothing(expanded: Set<ChangelistId>, id: ChangelistId)
    ensures
        toggled(toggled(expanded, id), id) == expanded,
{
    assert(toggled(toggled(expanded, id), id) =~= expanded);
}

/// Switching all changelists leaves either all of them showing their files or
/// none, and doing it again turns the one into the other.
pub proof fn toggling_all_is_all_or_nothing(
    changelists: Seq<PerforceChangelistView>,
    expanded: Set<ChangelistId>,
)
    ensures
        ({
            let once = all_toggled(changelists, expanded);
            let twice = all_toggled(changelists, once);
            if changelists.len() == 0 || all_expanded(changelists, expanded) {
                &&& once == Set::<ChangelistId>::empty()
                &&& twice == ids_of(changelists)
            } else {
                &&& all_expanded(changelists, once)
                &&& twice == Set::<ChangelistId>::empty()
            }
        }),
{
    let once = all_toggled(changelists, expanded);
    if changelists.len() == 0 {
        assert(ids_of(changelists) =~= Set::<ChangelistId>::empty());
    } else if all_expanded(changelists, expanded) {
        assert(!once.contains(changelists[0].id));
    } else {
        assert forall|i: int| 0 <= i < changelists.len() implies once.contains(
            (#[trigger] changelists[i]).id,
        ) by {}
    }
}

} // verus!
