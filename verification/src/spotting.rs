//! Editing the spotted structures of a line: removing a tower while keeping the
//! inspector's selection on the same tower.
use vstd::prelude::*;

verus! {

/// Where the selection lands after tower `i` is removed: the removed tower is
/// deselected, a later tower moves down one place, an earlier one keeps its index.
pub open spec fn selection_after_removal(selected: Option<usize>, i: usize) -> Option<usize> {
    match selected {
        Some(s) => if s == i {
            None
        } else if s > i {
            Some((s - 1) as usize)
        } else {
            Some(s)
        },
        None => None,
    }
}

/// The selection follows its tower: removing tower `i` deselects it when it was the
/// selected one, keeps nothing selected when nothing was, and otherwise leaves the
/// selection on the same tower in the shortened list.
pub proof fn law_selection_follows_its_tower<T>(towers: Seq<T>, selected: Option<usize>, i: usize)
    requires
        i < towers.len(),
    ensures
        selected is None ==> selection_after_removal(selected, i) is None,
        selected == Some(i) ==> selection_after_removal(selected, i) is None,
        selected matches Some(s) ==> (s != i && s < towers.len() ==> (selection_after_removal(selected, i)
            matches Some(t) && t < towers.remove(i as int).len()
            && towers.remove(i as int)[t as int] == towers[s as int])),
{
}

/// Removes tower `i` (the others keep their order) and returns the selection
/// moved with it: `None` if tower `i` was the selected one, `s - 1` if the
/// selected tower `s` came after it, otherwise the selection unchanged.
pub fn delete_tower<T>(towers: &mut Vec<T>, selected: Option<usize>, i: usize) -> (sel: Option<usize>)
    requires
        i < old(towers)@.len(),
    ensures
        final(towers)@ == old(towers)@.remove(i as int),
        sel == selection_after_removal(selected, i),
        selected is None ==> sel is None,
        selected == Some(i) ==> sel is None,
        selected matches Some(s) ==> (s != i && s < old(towers)@.len() ==> (sel matches Some(t)
            && t < final(towers)@.len() && final(towers)@[t as int] == old(towers)@[s as int])),
{
    proof {
        law_selection_follows_its_tower(old(towers)@, selected, i);
    }
    towers.remove(i);
    match selected {
        Some(s) => if s == i {
            None
        } else if s > i {
            Some(s - 1)
        } else {
            Some(s)
        },
        None => None,
    }
}

} // verus!
