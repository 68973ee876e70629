//! Grouping of devices that carry the same name.

use vstd::prelude::*;

verus! {

/// The places in a list at which one name stands.
pub struct NameGroup {
    pub name: String,
    pub members: Vec<usize>,
}

impl NameGroup {
    /// Whether this group is a group of `names`: it is not empty, its members
    /// are places of `names` in rising order, and its name stands at each.
    pub open spec fn within(self, names: Seq<Seq<char>>) -> bool {
        &&& self.members@.len() > 0
        &&& forall|k: int|
            0 <= k < self.members@.len() ==> (#[trigger] self.members@[k]) < names.len()
                && names[self.members@[k] as int] == self.name@
        &&& forall|j: int, k: int|
            0 <= j < k < self.members@.len() ==> self.members@[j] < self.members@[k]
    }
}

/// The names of a list of texts.
pub open spec fn views(names: Seq<String>) -> Seq<Seq<char>> {
    Seq::new(names.len(), |i: int| names[i]@)
}

/// Whether `groups` is the grouping of the first `upto` places of `names`:
/// every group is one of `names`, no two groups have the same name, every
/// place below `upto` and no other is in a group, and the groups stand in
/// the order in which their names first occur.
pub open spec fn groups_upto(names: Seq<Seq<char>>, groups: Seq<NameGroup>, upto: int) -> bool {
    &&& forall|g: int| 0 <= g < groups.len() ==> (#[trigger] groups[g]).within(names)
    &&& forall|g: int, k: int|
        0 <= g < groups.len() && 0 <= k < groups[g].members@.len()
            ==> (#[trigger] groups[g].members@[k]) < upto
    &&& forall|g: int, h: int|
        0 <= g < h < groups.len() ==> (#[trigger] groups[g]).name@ != (#[trigger] groups[h]).name@
    &&& forall|g: int, h: int|
        0 <= g < h < groups.len() ==> (#[trigger] groups[g]).members@[0]
            < (#[trigger] groups[h]).members@[0]
    &&& forall|i: int| 0 <= i < upto ==> #[trigger] placed(groups, i)
}

/// Whether place `i` is a member of one of `groups`.
pub open spec fn placed(groups: Seq<NameGroup>, i: int) -> bool {
    exists|g: int, k: int|
        0 <= g < groups.len() && 0 <= k < groups[g].members@.len()
            && #[trigger] groups[g].members@[k] == i
}

/// Whether `groups` is the grouping of `names`.
pub open spec fn is_grouping(names: Seq<Seq<char>>, groups: Seq<NameGroup>) -> bool {
    groups_upto(names, groups, names.len() as int)
}

/// The names of `names`, each once, in the order in which they first occur.
pub open spec fn distinct_names(names: Seq<Seq<char>>) -> Seq<Seq<char>>
    decreases names.len(),
{
    if names.len() == 0 {
        Seq::empty()
    } else {
        let before = distinct_names(names.drop_last());
        if before.contains(names.last()) {
            before
        } else {
            before.push(names.last())
        }
    }
}

/// The places of `names` at which `name` stands, in rising order.
pub open spec fn places_of(names: Seq<Seq<char>>, name: Seq<char>) -> Seq<usize>
    decreases names.len(),
{
    if names.len() == 0 {
        Seq::empty()
    } else {
        let before = places_of(names.drop_last(), name);
        if names.last() == name {
            before.push((names.len() - 1) as usize)
        } else {
            before
        }
    }
}

/// Whether `groups` holds one group for each of the distinct names of
/// `names`, in their order, with all the places of its name.
pub open spec fn groups_of(names: Seq<Seq<char>>, groups: Seq<NameGroup>) -> bool {
    &&& groups.len() == distinct_names(names).len()
    &&& forall|g: int|
        0 <= g < groups.len() ==> (#[trigger] groups[g]).name@ == distinct_names(names)[g]
            && groups[g].members@ == places_of(names, groups[g].name@)
}

/// A name that is not among the distinct names stands at no place.
pub proof fn lemma_no_places(names: Seq<Seq<char>>, name: Seq<char>)
    requires
        !distinct_names(names).contains(name),
    ensures
        places_of(names, name) == Seq::<usize>::empty(),
    decreases names.len(),
{
    if names.len() > 0 {
        let before = distinct_names(names.drop_last());
        let all = distinct_names(names);
        if before.contains(name) {
            let g = choose|g: int| 0 <= g < before.len() && before[g] == name;
            assert(all[g] == name);
        }
        if names.last() == name && !before.contains(name) {
            assert(all[before.len() as int] == name);
        }
        lemma_no_places(names.drop_last(), name);
    }
}

/// The group that holds `name`, if there is one.
fn find_group(groups: &Vec<NameGroup>, name: &String) -> (found: Option<usize>)
    ensures
        match found {
            Some(g) => g < groups@.len() && groups@[g as int].name@ == name@,
            None => forall|g: int| 0 <= g < groups@.len() ==> (#[trigger] groups@[g]).name@ != name@,
        },
{
    let mut g: usize = 0;
    while g < groups.len()
        invariant
            g <= groups@.len(),
            forall|h: int| 0 <= h < g ==> (#[trigger] groups@[h]).name@ != name@,
        decreases groups@.len() - g,
    {
        if groups[g].name == *name {
            return Some(g);
        }
        g = g + 1;
    }
    None
}

/// Groups the places of `names` by the name that stands there.
pub fn group_by_name(names: &Vec<String>) -> (groups: Vec<NameGroup>)
    ensures
        groups_of(views(names@), groups@),
        is_grouping(views(names@), groups@),
{
    let ghost all = views(names@);
    let mut groups: Vec<NameGroup> = Vec::new();
    let mut i: usize = 0;
    assert(all.take(0) =~= Seq::<Seq<char>>::empty());
    while i < names.len()
        invariant
            i <= names@.len(),
            all == views(names@),
            groups_upto(all, groups@, i as int),
            groups_of(all.take(i as int), groups@),
        decreases names@.len() - i,
    {
        let ghost before = groups@;
        let ghost seen = all.take(i as int);
        let ghost now = all.take(i + 1);
        proof {
            assert(now.drop_last() =~= seen);
            assert(now.last() == names@[i as int]@);
        }
        match find_group(&groups, &names[i]) {
            Some(g) => {
                let ghost old_members = groups@[g as int].members@;
                groups[g].members.push(i);
                proof {
                    assert(groups@.len() == before.len());
                    assert(forall|h: int|
                        0 <= h < before.len() && h != g ==> groups@[h] == before[h]);
                    assert(distinct_names(seen)[g as int] == now.last());
                    assert(distinct_names(now) == distinct_names(seen));
                    assert forall|h: int| 0 <= h < groups@.len() implies (#[trigger] groups@[h]).name@
                        == distinct_names(now)[h] && groups@[h].members@ == places_of(
                        now,
                        groups@[h].name@,
                    ) by {
                        assert(before[h].name@ == distinct_names(seen)[h]);
                        if h != g {
                            assert(before[h].name@ != before[g as int].name@);
                        }
                    }
                    assert(groups@[g as int].name == before[g as int].name);
                    assert(groups@[g as int].members@ == old_members.push(i));
                    assert(old_members == before[g as int].members@);
                    assert(before[g as int].within(all));
                    assert forall|h: int| 0 <= h < groups@.len() implies (#[trigger] groups@[h]).within(
                        all,
                    ) by {
                        if h != g {
                            assert(before[h].within(all));
                        }
                    }
                    assert forall|j: int| 0 <= j < i + 1 implies #[trigger] placed(groups@, j) by {
                        if j < i {
                            assert(placed(before, j));
                            let (h, k) = choose|h: int, k: int|
                                0 <= h < before.len() && 0 <= k < before[h].members@.len()
                                    && #[trigger] before[h].members@[k] == j;
                            assert(groups@[h].members@[k] == j);
                        } else {
                            assert(groups@[g as int].members@[old_members.len() as int] == j);
                        }
                    }
                }
            },
            None => {
                let mut members: Vec<usize> = Vec::new();
                members.push(i);
                groups.push(NameGroup { name: names[i].clone(), members });
                proof {
                    let last = before.len() as int;
                    assert(forall|h: int| 0 <= h < before.len() ==> groups@[h] == before[h]);
                    assert(groups@[last].members@ =~= seq![i]);
                    assert(groups@[last].name@ == all[i as int]);
                    assert(!distinct_names(seen).contains(now.last())) by {
                        if distinct_names(seen).contains(now.last()) {
                            let h = choose|h: int|
                                0 <= h < distinct_names(seen).len() && distinct_names(seen)[h]
                                    == now.last();
                            assert(before[h].name@ == distinct_names(seen)[h]);
                        }
                    }
                    lemma_no_places(seen, now.last());
                    assert(places_of(now, now.last()) =~= seq![i]);
                    assert forall|h: int| 0 <= h < groups@.len() implies (#[trigger] groups@[h]).name@
                        == distinct_names(now)[h] && groups@[h].members@ == places_of(
                        now,
                        groups@[h].name@,
                    ) by {
                        if h < last {
                            assert(before[h].name@ == distinct_names(seen)[h]);
                        }
                    }
                    assert forall|h: int| 0 <= h < groups@.len() implies (#[trigger] groups@[h]).within(
                        all,
                    ) by {
                        if h < last {
                            assert(before[h].within(all));
                        }
                    }
                    assert forall|a: int, b: int| 0 <= a < b < groups@.len() implies (
                    #[trigger] groups@[a]).members@[0] < (#[trigger] groups@[b]).members@[0] by {
                        if b == last {
                            assert(before[a].within(all));
                            assert(before[a].members@[0] < i);
                        }
                    }
                    assert forall|j: int| 0 <= j < i + 1 implies #[trigger] placed(groups@, j) by {
                        if j < i {
                            assert(placed(before, j));
                            let (h, k) = choose|h: int, k: int|
                                0 <= h < before.len() && 0 <= k < before[h].members@.len()
                                    && #[trigger] before[h].members@[k] == j;
                            assert(groups@[h].members@[k] == j);
                        } else {
                            assert(groups@[last].members@[0] == j);
                        }
                    }
                }
            },
        }
        i = i + 1;
    }
    assert(all.take(i as int) =~= all);
    groups
}

} // verus!
