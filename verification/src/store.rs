//! The in-memory store: the authoritative task collection and its
//! create / toggle / delete / replace operations.

use vstd::prelude::*;

use crate::todo::{Todo, TodoView};

verus! {

/// The in-memory holder of the task collection. Tasks stay in insertion
/// order: creation appends, deletion removes in place.
pub struct TodoState {
    todos: Vec<Todo>,
}

/// Error returned when an operation names an id that is not in the
/// collection.
#[derive(Debug)]
pub enum TodoError {
    NotFound(u32),
}

/// The largest id in the collection, or 0 when it is empty.
pub open spec fn spec_max_id(ts: Seq<TodoView>) -> u32
    decreases ts.len(),
{
    if ts.len() == 0 {
        0u32
    } else {
        let m = spec_max_id(ts.drop_last());
        if ts.last().id > m {
            ts.last().id
        } else {
            m
        }
    }
}

/// All ids in the collection are pairwise distinct.
pub open spec fn ids_distinct(ts: Seq<TodoView>) -> bool {
    forall|i: int, j: int| 0 <= i < j < ts.len() ==> ts[i].id != ts[j].id
}

/// Whether some task in the collection carries the given id.
pub open spec fn contains_id(ts: Seq<TodoView>, id: u32) -> bool {
    exists|i: int| 0 <= i < ts.len() && ts[i].id == id
}

/// Index of the first task with the given id, or -1 when there is none.
pub open spec fn first_index_of(ts: Seq<TodoView>, id: u32) -> int
    decreases ts.len(),
{
    if ts.len() == 0 {
        -1
    } else if ts[0].id == id {
        0
    } else {
        let r = first_index_of(ts.drop_first(), id);
        if r == -1 {
            -1
        } else {
            r + 1
        }
    }
}

/// The task a `create` call builds on top of the given collection.
pub open spec fn created_todo(ts: Seq<TodoView>, text: Seq<char>) -> TodoView {
    TodoView { id: (spec_max_id(ts) + 1) as u32, text, completed: false }
}

/// The given task with its completion flag flipped.
pub open spec fn flipped(t: TodoView) -> TodoView {
    TodoView { id: t.id, text: t.text, completed: !t.completed }
}

/// `spec_max_id` bounds every id in the collection.
pub proof fn lemma_max_id_ge(ts: Seq<TodoView>)
    ensures
        forall|i: int| 0 <= i < ts.len() ==> #[trigger] ts[i].id <= spec_max_id(ts),
    decreases ts.len(),
{
    if ts.len() > 0 {
        lemma_max_id_ge(ts.drop_last());
        assert forall|i: int| 0 <= i < ts.len() implies #[trigger] ts[i].id <= spec_max_id(
            ts,
        ) by {
            if i < ts.len() - 1 {
                assert(ts.drop_last()[i] == ts[i]);
                assert(ts.drop_last()[i].id <= spec_max_id(ts.drop_last()));
            } else {
                assert(ts[i] == ts.last());
            }
        }
    }
}

/// `first_index_of` returns -1 exactly when the id is absent, and otherwise
/// the first position holding it.
pub proof fn lemma_first_index_of(ts: Seq<TodoView>, id: u32)
    ensures
        ({
            let k = first_index_of(ts, id);
            &&& -1 <= k < ts.len()
            &&& k == -1 ==> forall|i: int| 0 <= i < ts.len() ==> #[trigger] ts[i].id != id
            &&& k >= 0 ==> ts[k].id == id && forall|i: int| 0 <= i < k ==> #[trigger] ts[i].id != id
        }),
    decreases ts.len(),
{
    if ts.len() > 0 && ts[0].id != id {
        lemma_first_index_of(ts.drop_first(), id);
        let kd = first_index_of(ts.drop_first(), id);
        if kd == -1 {
            assert forall|i: int| 0 <= i < ts.len() implies #[trigger] ts[i].id != id by {
                if i > 0 {
                    assert(ts.drop_first()[i - 1] == ts[i]);
                    assert(ts.drop_first()[i - 1].id != id);
                }
            }
        } else {
            assert(ts[kd + 1] == ts.drop_first()[kd]);
            assert forall|i: int| 0 <= i < kd + 1 implies #[trigger] ts[i].id != id by {
                if i > 0 {
                    assert(ts.drop_first()[i - 1] == ts[i]);
                    assert(ts.drop_first()[i - 1].id != id);
                }
            }
        }
    }
}

/// Every id a `create` call returns is strictly greater than every id
/// already in the collection, so a collection grown by `create` alone keeps
/// its ids pairwise distinct — each new id exceeds all earlier ones.
pub proof fn lemma_create_id_monotonic(ts: Seq<TodoView>, text: Seq<char>)
    requires
        spec_max_id(ts) < u32::MAX,
    ensures
        ({
            let t = created_todo(ts, text);
            &&& forall|i: int| 0 <= i < ts.len() ==> #[trigger] ts[i].id < t.id
            &&& ids_distinct(ts) ==> ids_distinct(ts.push(t))
        }),
{
    lemma_max_id_ge(ts);
    let t = created_todo(ts, text);
    if ids_distinct(ts) {
        assert forall|i: int, j: int| 0 <= i < j < ts.push(t).len() implies ts.push(t)[i].id
            != ts.push(t)[j].id by {
            if j < ts.len() {
                assert(ts.push(t)[i] == ts[i] && ts.push(t)[j] == ts[j]);
            } else {
                assert(ts.push(t)[i] == ts[i] && ts.push(t)[j] == t);
            }
        }
    }
}

/// Toggling the same id twice restores the collection exactly.
pub proof fn lemma_toggle_twice_restores(ts: Seq<TodoView>, id: u32)
    requires
        first_index_of(ts, id) >= 0,
    ensures
        ({
            let k = first_index_of(ts, id);
            let once = ts.update(k, flipped(ts[k]));
            &&& first_index_of(once, id) == k
            &&& once.update(k, flipped(once[k])) == ts
        }),
{
    let k = first_index_of(ts, id);
    lemma_first_index_of(ts, id);
    let once = ts.update(k, flipped(ts[k]));
    lemma_first_index_of(once, id);
    let k2 = first_index_of(once, id);
    assert(once[k].id == id);
    if k2 < k {
        assert(ts[k2].id == once[k2].id && once[k2].id == id);
    }
    if k2 > k {
        assert(once[k].id != id);
    }
    assert(once.update(k, flipped(once[k])) =~= ts);
}

/// Deleting an id that occurs exactly once (which distinct ids guarantee)
/// shortens the collection by exactly one and leaves every other task's
/// fields unchanged; afterwards the id is gone.
pub proof fn lemma_delete_removes_exactly_one(ts: Seq<TodoView>, id: u32)
    requires
        ids_distinct(ts),
        contains_id(ts, id),
    ensures
        ({
            let k = first_index_of(ts, id);
            let rest = ts.remove(k);
            &&& 0 <= k < ts.len()
            &&& ts[k].id == id
            &&& rest.len() == ts.len() - 1
            &&& forall|j: int| 0 <= j < k ==> #[trigger] rest[j] == ts[j]
            &&& forall|j: int| k <= j < rest.len() ==> #[trigger] rest[j] == ts[j + 1]
            &&& !contains_id(rest, id)
        }),
{
    lemma_first_index_of(ts, id);
    let k = first_index_of(ts, id);
    assert(0 <= k < ts.len() && ts[k].id == id) by {
        let w = choose|i: int| 0 <= i < ts.len() && ts[i].id == id;
        assert(ts[w].id == id);
    }
    let rest = ts.remove(k);
    assert forall|j: int| 0 <= j < rest.len() implies #[trigger] rest[j].id != id by {
        if j < k {
            assert(rest[j] == ts[j]);
        } else {
            assert(rest[j] == ts[j + 1]);
        }
    }
}

impl TodoState {
    /// The mathematical value of the store: the sequence of task values.
    pub closed spec fn view(&self) -> Seq<TodoView> {
        self.todos.deep_view()
    }

    /// An empty store.
    pub fn new() -> (s: TodoState)
        ensures
            s@ =~= Seq::<TodoView>::empty(),
    {
        TodoState { todos: Vec::new() }
    }

    /// A snapshot copy of the current collection.
    pub fn get_all(&self) -> (r: Vec<Todo>)
        ensures
            r.deep_view() == self@,
    {
        let mut out: Vec<Todo> = Vec::new();
        let n = self.todos.len();
        let mut i: usize = 0;
        proof {
            assert(out.deep_view() =~= self@.subrange(0, 0));
        }
        while i < n
            invariant
                i <= n,
                n == self.todos.len(),
                out.deep_view() == self@.subrange(0, i as int),
            decreases n - i,
        {
            let ghost pre = out.deep_view();
            let t = self.todos[i].duplicate();
            proof {
                assert(t@ == self@[i as int]);
            }
            out.push(t);
            i = i + 1;
            proof {
                assert(out.deep_view() =~= pre.push(t@));
                assert(out.deep_view() =~= self@.subrange(0, i as int));
            }
        }
        proof {
            assert(out.deep_view() =~= self@);
        }
        out
    }

    /// Overwrite the whole collection with the supplied one. Uniqueness of
    /// the supplied ids is the caller's responsibility.
    pub fn replace_all(&mut self, new_collection: Vec<Todo>)
        ensures
            final(self)@ == new_collection.deep_view(),
    {
        self.todos = new_collection;
    }

    /// Same effect as [`Self::replace_all`]; used when hydrating the store
    /// from persisted data.
    pub fn load_from(&mut self, source: Vec<Todo>)
        ensures
            final(self)@ == source.deep_view(),
    {
        self.todos = source;
    }

    /// Append a fresh task: its id is one greater than the largest id
    /// present (1 for an empty collection), and it starts uncompleted.
    /// The created task is returned.
    pub fn create(&mut self, text: String) -> (t: Todo)
        requires
            spec_max_id(old(self)@) < u32::MAX,
        ensures
            t@ == created_todo(old(self)@, text@),
            final(self)@ == old(self)@.push(t@),
    {
        let ghost ts = self@;
        let n = self.todos.len();
        let mut m: u32 = 0;
        let mut i: usize = 0;
        while i < n
            invariant
                i <= n,
                n == self.todos.len(),
                self@ == ts,
                m == spec_max_id(ts.subrange(0, i as int)),
            decreases n - i,
        {
            proof {
                assert(ts[i as int] == self.todos@[i as int]@);
                assert(ts.subrange(0, i + 1).drop_last() =~= ts.subrange(0, i as int));
                assert(ts.subrange(0, i + 1).last() == ts[i as int]);
            }
            if self.todos[i].id > m {
                m = self.todos[i].id;
            }
            i = i + 1;
        }
        proof {
            assert(ts.subrange(0, n as int) =~= ts);
        }
        let t = Todo { id: m + 1, text, completed: false };
        let copy = t.duplicate();
        self.todos.push(t);
        copy
    }

    /// Flip the completion flag of the first task carrying the given id;
    /// report `NotFound` and change nothing when no task carries it.
    pub fn toggle(&mut self, id: u32) -> (r: Result<(), TodoError>)
        ensures
            ({
                let k = first_index_of(old(self)@, id);
                &&& k >= 0 ==> r is Ok && final(self)@ == old(self)@.update(
                    k,
                    flipped(old(self)@[k]),
                )
                &&& k < 0 ==> r == Result::<(), TodoError>::Err(TodoError::NotFound(id))
                    && final(self)@ == old(self)@
            }),
    {
        let ghost ts = self@;
        proof {
            lemma_first_index_of(ts, id);
        }
        let n = self.todos.len();
        let mut i: usize = 0;
        while i < n
            invariant
                i <= n,
                n == self.todos.len(),
                self@ == ts,
                ts == old(self)@,
                forall|j: int| 0 <= j < i ==> #[trigger] ts[j].id != id,
            decreases n - i,
        {
            proof {
                lemma_first_index_of(ts, id);
                assert(ts[i as int] == self.todos@[i as int]@);
            }
            if self.todos[i].id == id {
                proof {
                    assert(ts[i as int].id == id);
                    assert(first_index_of(ts, id) == i as int);
                }
                let t = self.todos.remove(i);
                let updated = Todo { id: t.id, text: t.text, completed: !t.completed };
                self.todos.insert(i, updated);
                proof {
                    assert(updated@ == flipped(ts[i as int]));
                    assert(self@ =~= ts.update(i as int, flipped(ts[i as int])));
                }
                return Ok(());
            }
            proof {
                assert(ts[i as int].id != id);
            }
            i = i + 1;
        }
        Err(TodoError::NotFound(id))
    }

    /// Remove the first task carrying the given id, keeping the order of
    /// the remaining tasks; report `NotFound` and change nothing when no
    /// task carries it.
    pub fn delete(&mut self, id: u32) -> (r: Result<(), TodoError>)
        ensures
            ({
                let k = first_index_of(old(self)@, id);
                &&& k >= 0 ==> r is Ok && final(self)@ == old(self)@.remove(k)
                &&& k < 0 ==> r == Result::<(), TodoError>::Err(TodoError::NotFound(id))
                    && final(self)@ == old(self)@
            }),
    {
        let ghost ts = self@;
        proof {
            lemma_first_index_of(ts, id);
        }
        let n = self.todos.len();
        let mut i: usize = 0;
        while i < n
            invariant
                i <= n,
                n == self.todos.len(),
                self@ == ts,
                ts == old(self)@,
                forall|j: int| 0 <= j < i ==> #[trigger] ts[j].id != id,
            decreases n - i,
        {
            proof {
                lemma_first_index_of(ts, id);
                assert(ts[i as int] == self.todos@[i as int]@);
            }
            if self.todos[i].id == id {
                proof {
                    assert(ts[i as int].id == id);
                    assert(first_index_of(ts, id) == i as int);
                }
                self.todos.remove(i);
                proof {
                    assert(self@ =~= ts.remove(i as int));
                }
                return Ok(());
            }
            proof {
                assert(ts[i as int].id != id);
            }
            i = i + 1;
        }
        Err(TodoError::NotFound(id))
    }
}

impl Default for TodoState {
    /// An empty store.
    fn default() -> (s: TodoState)
        ensures
            s@ =~= Seq::<TodoView>::empty(),
    {
        TodoState::new()
    }
}

} // verus!
