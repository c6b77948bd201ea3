use vstd::prelude::*;

use crate::task::{flipped, rewritten, Task, TaskError, TaskModel};

verus! {

/// The models of a sequence of tasks, one for one.
pub open spec fn views(s: Seq<Task>) -> Seq<TaskModel> {
    s.map_values(|t: Task| t@)
}

/// Identifiers strictly increase along the sequence: creation order, no repeats.
pub open spec fn ids_ascending(s: Seq<TaskModel>) -> bool {
    forall|i: int, j: int| 0 <= i < j < s.len() ==> s[i].id < s[j].id
}

/// Some task of the sequence has this identifier.
pub open spec fn has_id(s: Seq<TaskModel>, id: u64) -> bool {
    exists|i: int| 0 <= i < s.len() && s[i].id == id
}

/// Every identifier of `ids` belongs to some task of the sequence.
pub open spec fn all_present(s: Seq<TaskModel>, ids: Seq<u64>) -> bool {
    forall|k: int| 0 <= k < ids.len() ==> has_id(s, ids[k])
}

/// The task with this identifier (meaningful when `has_id(s, id)`).
pub open spec fn find(s: Seq<TaskModel>, id: u64) -> TaskModel {
    s[choose|i: int| 0 <= i < s.len() && s[i].id == id]
}

/// What a listing shows: every task, or only those not yet done, in store order.
pub open spec fn listed(s: Seq<TaskModel>, incomplete_only: bool) -> Seq<TaskModel> {
    if incomplete_only {
        s.filter(|t: TaskModel| !t.done)
    } else {
        s
    }
}

/// The tasks after flipping each one whose identifier is in `ids`.
pub open spec fn toggled(s: Seq<TaskModel>, ids: Seq<u64>) -> Seq<TaskModel> {
    s.map_values(|t: TaskModel| if ids.contains(t.id) { flipped(t) } else { t })
}

/// The tasks after giving the one with identifier `id` a new text.
pub open spec fn edited(s: Seq<TaskModel>, id: u64, body: Seq<char>) -> Seq<TaskModel> {
    s.map_values(|t: TaskModel| if t.id == id { rewritten(t, body) } else { t })
}

/// The tasks after dropping every one whose identifier is in `ids`.
pub open spec fn removed(s: Seq<TaskModel>, ids: Seq<u64>) -> Seq<TaskModel> {
    s.filter(|t: TaskModel| !ids.contains(t.id))
}

/// The tasks that adding `bodies` creates: consecutive identifiers from `first`, not done.
pub open spec fn fresh_tasks(first: u64, bodies: Seq<Seq<char>>) -> Seq<TaskModel> {
    Seq::new(bodies.len(), |k: int| TaskModel { id: (first + k) as u64, body: bodies[k], done: false })
}

/// A filter keeps the tasks it retains in their order, so identifiers still ascend.
pub(crate) proof fn lemma_filter_ascending(s: Seq<TaskModel>, p: spec_fn(TaskModel) -> bool)
    requires
        ids_ascending(s),
    ensures
        ids_ascending(s.filter(p)),
        forall|k: int| 0 <= k < s.filter(p).len() ==> s.contains(#[trigger] s.filter(p)[k]),
    decreases s.len(),
{
    broadcast use Seq::lemma_filter_contains_rev;
    if s.len() > 0 {
        let rest = s.drop_last();
        lemma_filter_ascending(rest, p);
        let f = s.filter(p);
        reveal(Seq::filter);
        assert(f == if p(s.last()) { rest.filter(p).push(s.last()) } else { rest.filter(p) });
        assert forall|k: int| 0 <= k < rest.filter(p).len() implies
            #[trigger] rest.filter(p)[k].id < s.last().id by {
            assert(rest.contains(rest.filter(p)[k]));
            let j = choose|j: int| 0 <= j < rest.len() && rest[j] == rest.filter(p)[k];
            assert(s[j] == rest[j]);
        }
        assert forall|k: int| 0 <= k < f.len() implies s.contains(#[trigger] f[k]) by {
            if k < rest.filter(p).len() {
                assert(rest.contains(rest.filter(p)[k]));
                let j = choose|j: int| 0 <= j < rest.len() && rest[j] == rest.filter(p)[k];
                assert(s[j] == rest[j]);
            } else {
                assert(f[k] == s[s.len() - 1]);
            }
        }
    }
}

/// With ascending identifiers, the task at `i` is the only one carrying its identifier.
proof fn lemma_unique(s: Seq<TaskModel>, i: int)
    requires
        ids_ascending(s),
        0 <= i < s.len(),
    ensures
        has_id(s, s[i].id),
        find(s, s[i].id) == s[i],
        forall|k: int| 0 <= k < s.len() && k != i ==> #[trigger] s[k].id != s[i].id,
{
    assert forall|k: int| 0 <= k < s.len() && k != i implies #[trigger] s[k].id != s[i].id by {
        if k < i {
            assert(s[k].id < s[i].id);
        } else {
            assert(s[i].id < s[k].id);
        }
    }
    let j = choose|j: int| 0 <= j < s.len() && s[j].id == s[i].id;
    assert(j == i);
}

/// Whether `id` occurs in `ids`.
fn contains_id(ids: &Vec<u64>, id: u64) -> (r: bool)
    ensures
        r == ids@.contains(id),
{
    let mut k: usize = 0;
    while k < ids.len()
        invariant
            0 <= k <= ids@.len(),
            forall|j: int| 0 <= j < k ==> ids@[j] != id,
        decreases ids@.len() - k,
    {
        if ids[k] == id {
            return true;
        }
        k = k + 1;
    }
    false
}

/// The list of tasks, in creation order, with the identifier the next one receives.
pub struct TaskStore {
    tasks: Vec<Task>,
    next_id: u64,
}

impl View for TaskStore {
    type V = Seq<TaskModel>;

    closed spec fn view(&self) -> Seq<TaskModel> {
        views(self.tasks@)
    }
}

impl TaskStore {
    /// The identifier that the next added task receives.
    pub closed spec fn next_id(&self) -> u64 {
        self.next_id
    }

    /// Identifiers ascend in creation order and all lie below the next one to hand out.
    pub open spec fn wf(&self) -> bool {
        &&& ids_ascending(self@)
        &&& forall|i: int| 0 <= i < self@.len() ==> #[trigger] self@[i].id < self.next_id()
    }

    /// An empty store; the first task added receives identifier 1.
    pub fn new() -> (r: TaskStore)
        ensures
            r.wf(),
            r@ == Seq::<TaskModel>::empty(),
            r.next_id() == 1,
    {
        let r = TaskStore { tasks: Vec::new(), next_id: 1 };
        assert(r@ =~= Seq::<TaskModel>::empty());
        r
    }

    /// A store holding persisted rows, given in creation order. The rows are refused
    /// as `Storage` when their identifiers do not strictly ascend or leave no room
    /// for another one.
    pub fn from_rows(rows: Vec<Task>) -> (r: Result<TaskStore, TaskError>)
        ensures
            match r {
                Ok(st) => {
                    &&& ids_ascending(views(rows@))
                    &&& (rows@.len() > 0 ==> rows@.last().id < u64::MAX)
                    &&& st.wf()
                    &&& st@ == views(rows@)
                    &&& st.next_id() == if rows@.len() == 0 { 1 } else { rows@.last().id + 1 }
                },
                Err(e) => {
                    &&& e == TaskError::Storage
                    &&& !(ids_ascending(views(rows@)) && (rows@.len() > 0 ==> rows@.last().id
                        < u64::MAX))
                },
            },
    {
        let n = rows.len();
        if n == 0 {
            let st = TaskStore { tasks: rows, next_id: 1 };
            assert(st@ =~= Seq::<TaskModel>::empty());
            return Ok(st);
        }
        let mut i: usize = 1;
        while i < n
            invariant
                1 <= i <= n,
                n == rows@.len(),
                forall|a: int, b: int| 0 <= a < b < i ==> rows@[a].id < rows@[b].id,
            decreases n - i,
        {
            if rows[i - 1].id >= rows[i].id {
                assert(!ids_ascending(views(rows@))) by {
                    assert(views(rows@)[i - 1].id == rows@[i - 1].id);
                    assert(views(rows@)[i as int].id == rows@[i as int].id);
                }
                return Err(TaskError::Storage);
            }
            assert forall|a: int, b: int| 0 <= a < b < i + 1 implies rows@[a].id
                < rows@[b].id by {
                if b == i && a < i - 1 {
                    assert(rows@[a].id < rows@[i - 1].id);
                }
            }
            i = i + 1;
        }
        let last = rows[n - 1].id;
        if last == u64::MAX {
            return Err(TaskError::Storage);
        }
        let st = TaskStore { tasks: rows, next_id: last + 1 };
        assert forall|a: int| 0 <= a < st@.len() implies #[trigger] st@[a].id < st.next_id() by {
            if a < n - 1 {
                assert(rows@[a].id < rows@[n - 1].id);
            }
        }
        Ok(st)
    }
    /// Appends a task with the given text, not done, under the next identifier.
    /// Refused as `Storage`, with nothing changed, once identifiers are used up.
    pub fn add(&mut self, body: String) -> (r: Result<Task, TaskError>)
        requires
            old(self).wf(),
        ensures
            final(self).wf(),
            match r {
                Ok(t) => {
                    &&& old(self).next_id() < u64::MAX
                    &&& t@ == (TaskModel { id: old(self).next_id(), body: body@, done: false })
                    &&& final(self)@ == old(self)@.push(t@)
                    &&& final(self).next_id() == old(self).next_id() + 1
                },
                Err(e) => {
                    &&& old(self).next_id() == u64::MAX
                    &&& e == TaskError::Storage
                    &&& final(self)@ == old(self)@
                    &&& final(self).next_id() == old(self).next_id()
                },
            },
    {
        if self.next_id == u64::MAX {
            return Err(TaskError::Storage);
        }
        let t = Task { id: self.next_id, body, done: false };
        let r = t.duplicate();
        self.tasks.push(t);
        self.next_id = self.next_id + 1;
        assert(self@ =~= old(self)@.push(r@));
        Ok(r)
    }

    /// Appends one task per text, in the order given, with consecutive identifiers.
    /// Refused as `Storage`, with nothing changed, when identifiers would run out.
    pub fn add_all(&mut self, bodies: Vec<String>) -> (r: Result<Vec<Task>, TaskError>)
        requires
            old(self).wf(),
        ensures
            final(self).wf(),
            match r {
                Ok(added) => {
                    &&& old(self).next_id() + bodies@.len() <= u64::MAX
                    &&& views(added@) == fresh_tasks(
                        old(self).next_id(),
                        bodies@.map_values(|b: String| b@),
                    )
                    &&& final(self)@ == old(self)@ + views(added@)
                    &&& final(self).next_id() == old(self).next_id() + bodies@.len()
                },
                Err(e) => {
                    &&& old(self).next_id() + bodies@.len() > u64::MAX
                    &&& e == TaskError::Storage
                    &&& final(self)@ == old(self)@
                    &&& final(self).next_id() == old(self).next_id()
                },
            },
    {
        let n = bodies.len();
        if n as u64 > u64::MAX - self.next_id {
            return Err(TaskError::Storage);
        }
        let ghost texts = bodies@.map_values(|b: String| b@);
        let ghost first = self.next_id;
        let mut added: Vec<Task> = Vec::new();
        let mut i: usize = 0;
        while i < n
            invariant
                0 <= i <= n,
                n == bodies@.len(),
                texts == bodies@.map_values(|b: String| b@),
                first == old(self).next_id(),
                first + n <= u64::MAX,
                self.wf(),
                self.next_id() == first + i,
                views(added@) == fresh_tasks(first, texts.subrange(0, i as int)),
                self@ == old(self)@ + views(added@),
            decreases n - i,
        {
            let body = bodies[i].clone();
            match self.add(body) {
                Ok(t) => {
                    let ghost before = added@;
                    added.push(t);
                    assert(views(added@) =~= views(before).push(t@));
                    assert(fresh_tasks(first, texts.subrange(0, i + 1)) =~= fresh_tasks(
                        first,
                        texts.subrange(0, i as int),
                    ).push(t@));
                    assert(self@ =~= old(self)@ + views(added@));
                },
                Err(e) => {
                    return Err(e);
                },
            }
            i = i + 1;
        }
        assert(texts.subrange(0, n as int) =~= texts);
        Ok(added)
    }

    /// The tasks in creation order: all of them, or only those not yet done.
    pub fn list(&self, incomplete_only: bool) -> (r: Vec<Task>)
        requires
            self.wf(),
        ensures
            views(r@) == listed(self@, incomplete_only),
    {
        let n = self.tasks.len();
        let mut r: Vec<Task> = Vec::new();
        let mut i: usize = 0;
        while i < n
            invariant
                0 <= i <= n,
                n == self@.len(),
                views(r@) == listed(self@.subrange(0, i as int), incomplete_only),
            decreases n - i,
        {
            let ghost before = r@;
            let ghost pre = self@.subrange(0, i as int);
            let ghost cur = self@.subrange(0, i + 1);
            let t = &self.tasks[i];
            if !incomplete_only || !t.done {
                r.push(t.duplicate());
                assert(views(r@) =~= views(before).push(t@));
            } else {
                assert(r@ == before);
            }
            proof {
                assert(cur.drop_last() =~= pre);
                assert(cur.last() == self@[i as int]);
                reveal(Seq::filter);
            }
            i = i + 1;
        }
        assert(self@.subrange(0, n as int) =~= self@);
        r
    }

    /// Drops every task that is done, keeping the others in order.
    pub fn remove_completed(&mut self)
        requires
            old(self).wf(),
        ensures
            final(self).wf(),
            final(self)@ == old(self)@.filter(|t: TaskModel| !t.done),
            final(self).next_id() == old(self).next_id(),
    {
        let kept = self.list(true);
        self.tasks = kept;
        proof {
            lemma_filter_ascending(old(self)@, |t: TaskModel| !t.done);
            let f = old(self)@.filter(|t: TaskModel| !t.done);
            assert forall|i: int| 0 <= i < f.len() implies #[trigger] f[i].id < self.next_id() by {
                assert(old(self)@.contains(f[i]));
            }
        }
    }
    /// Where the task with this identifier stands, if any.
    fn position(&self, id: u64) -> (r: Option<usize>)
        requires
            self.wf(),
        ensures
            match r {
                Some(i) => {
                    &&& i < self@.len()
                    &&& self@[i as int].id == id
                    &&& has_id(self@, id)
                    &&& find(self@, id) == self@[i as int]
                },
                None => !has_id(self@, id),
            },
    {
        let mut i: usize = 0;
        while i < self.tasks.len()
            invariant
                self.wf(),
                0 <= i <= self@.len(),
                forall|j: int| 0 <= j < i ==> self@[j].id != id,
            decreases self@.len() - i,
        {
            if self.tasks[i].id == id {
                proof {
                    lemma_unique(self@, i as int);
                }
                return Some(i);
            }
            i = i + 1;
        }
        None
    }

    /// Whether every identifier of `ids` belongs to a task of the store.
    fn holds_all(&self, ids: &Vec<u64>) -> (r: bool)
        requires
            self.wf(),
        ensures
            r == all_present(self@, ids@),
    {
        let mut k: usize = 0;
        while k < ids.len()
            invariant
                self.wf(),
                0 <= k <= ids@.len(),
                forall|j: int| 0 <= j < k ==> has_id(self@, ids@[j]),
            decreases ids@.len() - k,
        {
            if self.position(ids[k]).is_none() {
                return false;
            }
            k = k + 1;
        }
        true
    }

    /// Flips whether the task with this identifier is done, and returns it as it now stands.
    /// Refused as `NotFound`, with nothing changed, when no task has the identifier.
    pub fn toggle(&mut self, id: u64) -> (r: Result<Task, TaskError>)
        requires
            old(self).wf(),
        ensures
            final(self).wf(),
            final(self).next_id() == old(self).next_id(),
            match r {
                Ok(t) => {
                    &&& has_id(old(self)@, id)
                    &&& t@ == flipped(find(old(self)@, id))
                    &&& final(self)@ == toggled(old(self)@, seq![id])
                },
                Err(e) => {
                    &&& !has_id(old(self)@, id)
                    &&& e == TaskError::NotFound
                    &&& final(self)@ == old(self)@
                },
            },
    {
        match self.position(id) {
            None => Err(TaskError::NotFound),
            Some(i) => {
                let mut t = self.tasks[i].duplicate();
                t.done = !t.done;
                let r = t.duplicate();
                self.tasks.set(i, t);
                proof {
                    lemma_unique(old(self)@, i as int);
                    assert forall|k: int| 0 <= k < self@.len() implies #[trigger] self@[k]
                        == toggled(old(self)@, seq![id])[k] by {
                        assert(seq![id].contains(old(self)@[k].id) <==> old(self)@[k].id == id)
                            by {
                            if old(self)@[k].id == id {
                                assert(seq![id][0] == id);
                            }
                        }
                    }
                    assert(self@ =~= toggled(old(self)@, seq![id]));
                }
                Ok(r)
            },
        }
    }
    /// Flips whether each task whose identifier is in `ids` is done; a task named more
    /// than once is flipped once. Refused as `NotFound`, with nothing changed, when some
    /// identifier belongs to no task.
    pub fn toggle_all(&mut self, ids: &Vec<u64>) -> (r: Result<(), TaskError>)
        requires
            old(self).wf(),
        ensures
            final(self).wf(),
            final(self).next_id() == old(self).next_id(),
            match r {
                Ok(()) => {
                    &&& all_present(old(self)@, ids@)
                    &&& final(self)@ == toggled(old(self)@, ids@)
                },
                Err(e) => {
                    &&& !all_present(old(self)@, ids@)
                    &&& e == TaskError::NotFound
                    &&& final(self)@ == old(self)@
                },
            },
    {
        if !self.holds_all(ids) {
            return Err(TaskError::NotFound);
        }
        let n = self.tasks.len();
        let mut i: usize = 0;
        while i < n
            invariant
                0 <= i <= n,
                n == self@.len(),
                n == old(self)@.len(),
                self.next_id() == old(self).next_id(),
                forall|j: int| 0 <= j < i ==> #[trigger] self@[j] == toggled(old(self)@, ids@)[j],
                forall|j: int| i <= j < n ==> #[trigger] self@[j] == old(self)@[j],
            decreases n - i,
        {
            let ghost prev = self@;
            if contains_id(ids, self.tasks[i].id) {
                let mut t = self.tasks[i].duplicate();
                t.done = !t.done;
                self.tasks.set(i, t);
                assert(self@ =~= prev.update(i as int, flipped(prev[i as int])));
            }
            assert(self@[i as int] == toggled(old(self)@, ids@)[i as int]);
            i = i + 1;
        }
        assert(self@ =~= toggled(old(self)@, ids@));
        assert forall|a: int, b: int| 0 <= a < b < self@.len() implies self@[a].id
            < self@[b].id by {
            assert(self@[a].id == old(self)@[a].id);
            assert(self@[b].id == old(self)@[b].id);
        }
        assert forall|a: int| 0 <= a < self@.len() implies #[trigger] self@[a].id
            < self.next_id() by {
            assert(self@[a].id == old(self)@[a].id);
        }
        Ok(())
    }

    /// Gives the task with this identifier a new text, and returns it as it now stands.
    /// An empty text is refused as `InvalidInput`; otherwise an unknown identifier is
    /// refused as `NotFound`. Nothing changes when refused.
    pub fn edit(&mut self, id: u64, body: String) -> (r: Result<Task, TaskError>)
        requires
            old(self).wf(),
        ensures
            final(self).wf(),
            final(self).next_id() == old(self).next_id(),
            match r {
                Ok(t) => {
                    &&& body@.len() > 0
                    &&& has_id(old(self)@, id)
                    &&& t@ == rewritten(find(old(self)@, id), body@)
                    &&& final(self)@ == edited(old(self)@, id, body@)
                },
                Err(e) => {
                    &&& e == if body@.len() == 0 {
                        TaskError::InvalidInput
                    } else {
                        TaskError::NotFound
                    }
                    &&& (body@.len() == 0 || !has_id(old(self)@, id))
                    &&& final(self)@ == old(self)@
                },
            },
    {
        if body.as_str().is_empty() {
            return Err(TaskError::InvalidInput);
        }
        match self.position(id) {
            None => Err(TaskError::NotFound),
            Some(i) => {
                let t = Task { id, body, done: self.tasks[i].done };
                let r = t.duplicate();
                self.tasks.set(i, t);
                proof {
                    lemma_unique(old(self)@, i as int);
                    assert(self@ =~= edited(old(self)@, id, body@));
                }
                Ok(r)
            },
        }
    }

    /// Keeps, in order, the tasks whose identifiers are not in `ids`.
    fn keep_except(&mut self, ids: &Vec<u64>)
        requires
            old(self).wf(),
        ensures
            final(self).wf(),
            final(self).next_id() == old(self).next_id(),
            final(self)@ == removed(old(self)@, ids@),
    {
        let n = self.tasks.len();
        let mut kept: Vec<Task> = Vec::new();
        let mut i: usize = 0;
        while i < n
            invariant
                0 <= i <= n,
                n == self@.len(),
                *self == *old(self),
                views(kept@) == removed(self@.subrange(0, i as int), ids@),
            decreases n - i,
        {
            let ghost before = kept@;
            let ghost pre = self@.subrange(0, i as int);
            let ghost cur = self@.subrange(0, i + 1);
            let t = &self.tasks[i];
            if !contains_id(ids, t.id) {
                kept.push(t.duplicate());
                assert(views(kept@) =~= views(before).push(t@));
            }
            proof {
                assert(cur.drop_last() =~= pre);
                assert(cur.last() == self@[i as int]);
                reveal(Seq::filter);
            }
            i = i + 1;
        }
        assert(self@.subrange(0, n as int) =~= self@);
        self.tasks = kept;
        proof {
            let p = |t: TaskModel| !ids@.contains(t.id);
            lemma_filter_ascending(old(self)@, p);
            let f = old(self)@.filter(p);
            assert forall|k: int| 0 <= k < f.len() implies #[trigger] f[k].id < self.next_id() by {
                assert(old(self)@.contains(f[k]));
            }
        }
    }

    /// Deletes the task with this identifier. Refused as `NotFound`, with nothing
    /// changed, when no task has it.
    pub fn remove(&mut self, id: u64) -> (r: Result<(), TaskError>)
        requires
            old(self).wf(),
        ensures
            final(self).wf(),
            final(self).next_id() == old(self).next_id(),
            match r {
                Ok(()) => {
                    &&& has_id(old(self)@, id)
                    &&& final(self)@ == removed(old(self)@, seq![id])
                },
                Err(e) => {
                    &&& !has_id(old(self)@, id)
                    &&& e == TaskError::NotFound
                    &&& final(self)@ == old(self)@
                },
            },
    {
        if self.position(id).is_none() {
            return Err(TaskError::NotFound);
        }
        let mut ids: Vec<u64> = Vec::new();
        ids.push(id);
        assert(ids@ =~= seq![id]);
        self.keep_except(&ids);
        Ok(())
    }

    /// Deletes every task whose identifier is in `ids`. Refused as `NotFound`, with
    /// nothing changed, when some identifier belongs to no task.
    pub fn remove_all(&mut self, ids: &Vec<u64>) -> (r: Result<(), TaskError>)
        requires
            old(self).wf(),
        ensures
            final(self).wf(),
            final(self).next_id() == old(self).next_id(),
            match r {
                Ok(()) => {
                    &&& all_present(old(self)@, ids@)
                    &&& final(self)@ == removed(old(self)@, ids@)
                },
                Err(e) => {
                    &&& !all_present(old(self)@, ids@)
                    &&& e == TaskError::NotFound
                    &&& final(self)@ == old(self)@
                },
            },
    {
        if !self.holds_all(ids) {
            return Err(TaskError::NotFound);
        }
        self.keep_except(ids);
        Ok(())
    }

    /// The task at position `pick` of the full listing, as a selector shows it.
    /// A position past the end is refused as `NotFound`.
    pub fn task_at(&self, pick: usize) -> (r: Result<Task, TaskError>)
        requires
            self.wf(),
        ensures
            match r {
                Ok(t) => pick < self@.len() && t@ == self@[pick as int],
                Err(e) => pick >= self@.len() && e == TaskError::NotFound,
            },
    {
        if pick >= self.tasks.len() {
            return Err(TaskError::NotFound);
        }
        Ok(self.tasks[pick].duplicate())
    }

    /// The identifiers of the tasks at positions `picks` of the full listing, in the
    /// order picked. Refused as `NotFound` when some position is past the end.
    pub fn ids_at(&self, picks: &Vec<usize>) -> (r: Result<Vec<u64>, TaskError>)
        requires
            self.wf(),
        ensures
            match r {
                Ok(ids) => {
                    &&& forall|k: int| 0 <= k < picks@.len() ==> #[trigger] picks@[k] < self@.len()
                    &&& ids@ == picks@.map_values(|p: usize| self@[p as int].id)
                },
                Err(e) => {
                    &&& exists|k: int| 0 <= k < picks@.len() && #[trigger] picks@[k] >= self@.len()
                    &&& e == TaskError::NotFound
                },
            },
    {
        let mut ids: Vec<u64> = Vec::new();
        let mut k: usize = 0;
        while k < picks.len()
            invariant
                0 <= k <= picks@.len(),
                forall|j: int| 0 <= j < k ==> #[trigger] picks@[j] < self@.len(),
                ids@ == picks@.subrange(0, k as int).map_values(|p: usize| self@[p as int].id),
            decreases picks@.len() - k,
        {
            let p = picks[k];
            if p >= self.tasks.len() {
                return Err(TaskError::NotFound);
            }
            ids.push(self.tasks[p].id);
            assert(picks@.subrange(0, k + 1).map_values(|p: usize| self@[p as int].id)
                =~= picks@.subrange(0, k as int).map_values(|p: usize| self@[p as int].id).push(
                self@[p as int].id,
            ));
            k = k + 1;
        }
        assert(picks@.subrange(0, k as int) =~= picks@);
        Ok(ids)
    }
}

} // verus!
