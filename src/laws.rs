use vstd::prelude::*;

use crate::store::{fresh_tasks, has_id, ids_ascending, listed, removed, toggled, edited, find};
use crate::task::{rewritten, TaskModel};

verus! {

/// Adding a run of texts and then listing everything gives the earlier tasks, then one
/// new task per text, in the order given, none of them done.
pub proof fn law_add_then_list_all(before: Seq<TaskModel>, first: u64, bodies: Seq<Seq<char>>)
    requires
        first + bodies.len() <= u64::MAX,
    ensures
        ({
            let shown = listed(before + fresh_tasks(first, bodies), false);
            &&& shown.len() == before.len() + bodies.len()
            &&& shown.subrange(0, before.len() as int) == before
            &&& forall|k: int|
                0 <= k < bodies.len() ==> {
                    let t = #[trigger] shown[before.len() + k];
                    &&& t.body == bodies[k]
                    &&& !t.done
                    &&& t.id == first + k
                }
        }),
{
    let shown = listed(before + fresh_tasks(first, bodies), false);
    assert(shown.subrange(0, before.len() as int) =~= before);
}

/// Toggling the same selection twice gives back the tasks as they were.
pub proof fn law_toggle_twice(s: Seq<TaskModel>, ids: Seq<u64>)
    ensures
        toggled(toggled(s, ids), ids) == s,
{
    assert(toggled(toggled(s, ids), ids) =~= s);
}

/// Editing a task changes its text alone: every task keeps its place, identifier and
/// completion state, and no other task's text changes.
pub proof fn law_edit_changes_only_body(s: Seq<TaskModel>, id: u64, body: Seq<char>)
    requires
        ids_ascending(s),
        has_id(s, id),
    ensures
        rewritten(find(s, id), body).id == id,
        rewritten(find(s, id), body).done == find(s, id).done,
        rewritten(find(s, id), body).body == body,
        edited(s, id, body).len() == s.len(),
        forall|k: int|
            0 <= k < s.len() ==> {
                let e = #[trigger] edited(s, id, body)[k];
                &&& e.id == s[k].id
                &&& e.done == s[k].done
                &&& e.body == if s[k].id == id { body } else { s[k].body }
            },
        find(edited(s, id, body), id) == rewritten(find(s, id), body),
{
    let i = choose|i: int| 0 <= i < s.len() && s[i].id == id;
    let e = edited(s, id, body);
    assert forall|k: int| 0 <= k < s.len() && k != i implies s[k].id != id by {
        if k < i {
            assert(s[k].id < s[i].id);
        } else {
            assert(s[i].id < s[k].id);
        }
    }
    assert(e[i].id == id);
    let j = choose|j: int| 0 <= j < e.len() && e[j].id == id;
    assert(j == i);
}

/// After a task is removed, no task carries its identifier any more (so listing omits
/// it, and toggling, editing or removing it is refused as not found), while every
/// other task stays, in order.
pub proof fn law_remove_forgets(s: Seq<TaskModel>, id: u64)
    ensures
        !has_id(removed(s, seq![id]), id),
        forall|k: int| 0 <= k < s.len() && s[k].id != id ==> removed(s, seq![id]).contains(
            #[trigger] s[k],
        ),
        ids_ascending(s) ==> ids_ascending(removed(s, seq![id])),
{
    broadcast use Seq::lemma_filter_pred, Seq::lemma_filter_contains;
    let r = removed(s, seq![id]);
    if has_id(r, id) {
        let i = choose|i: int| 0 <= i < r.len() && r[i].id == id;
        assert(seq![id][0] == id);
        assert(!seq![id].contains(r[i].id));
    }
    assert forall|k: int| 0 <= k < s.len() && s[k].id != id implies r.contains(#[trigger] s[k]) by {
        assert(!seq![id].contains(s[k].id));
    }
    if ids_ascending(s) {
        crate::store::lemma_filter_ascending(s, |t: TaskModel| !seq![id].contains(t.id));
    }
}

/// Listing only what is not done gives exactly the tasks not done, in store order.
pub proof fn law_list_incomplete(s: Seq<TaskModel>)
    ensures
        forall|t: TaskModel| #[trigger] listed(s, true).contains(t) <==> s.contains(t) && !t.done,
        ids_ascending(s) ==> ids_ascending(listed(s, true)),
{
    broadcast use Seq::lemma_filter_pred, Seq::lemma_filter_contains, Seq::lemma_filter_contains_rev;
    if ids_ascending(s) {
        crate::store::lemma_filter_ascending(s, |t: TaskModel| !t.done);
    }
}

} // verus!
