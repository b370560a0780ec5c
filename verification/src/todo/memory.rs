//! The todo list kept in memory: todos are numbered from 1 in the order in
//! which they are created, listed in that order, flipped between done and
//! not done, and removed by number.

use vstd::prelude::*;
use crate::error::Status;
use crate::text::{trim, trimmed};

verus! {

/// A todo of the in-memory list.
#[derive(Debug, Clone)]
pub struct Todo {
    pub id: u64,
    pub title: String,
    pub done: bool,
}

/// The body of a creation request.
#[derive(Debug)]
pub struct CreateTodo {
    pub title: String,
}

/// A todo as plain values.
#[verifier::ext_equal]
pub struct TodoView {
    pub id: u64,
    pub title: Seq<char>,
    pub done: bool,
}

impl View for Todo {
    type V = TodoView;

    open spec fn view(&self) -> TodoView {
        TodoView { id: self.id, title: self.title@, done: self.done }
    }
}

impl Todo {
    /// A copy of this todo.
    pub fn duplicate(&self) -> (r: Todo)
        ensures
            r@ == self@,
    {
        Todo { id: self.id, title: self.title.clone(), done: self.done }
    }
}

/// The todos as plain values.
pub open spec fn views(todos: Seq<Todo>) -> Seq<TodoView> {
    todos.map_values(|t: Todo| t@)
}

/// The list as plain values: its todos in order, and the last number given
/// out (0 before the first todo).
#[verifier::ext_equal]
pub struct StoreView {
    pub todos: Seq<TodoView>,
    pub next_id: nat,
}

/// The ids strictly increase along the list.
pub open spec fn ids_ascending(todos: Seq<TodoView>) -> bool {
    forall|i: int, j: int| 0 <= i < j < todos.len() ==> todos[i].id < todos[j].id
}

/// Some todo of the list has this id.
pub open spec fn has_id(todos: Seq<TodoView>, id: u64) -> bool {
    exists|i: int| 0 <= i < todos.len() && todos[i].id == id
}

/// What holds of every list: ids strictly increase, and each lies between 1
/// and the last number given out.
pub open spec fn store_invariant(v: StoreView) -> bool {
    &&& ids_ascending(v.todos)
    &&& forall|i: int| 0 <= i < v.todos.len() ==> 1 <= #[trigger] v.todos[i].id <= v.next_id
    &&& v.next_id <= u64::MAX
}

/// The todo that creating with `title` adds: the next number, not done.
pub open spec fn new_todo(v: StoreView, title: Seq<char>) -> TodoView {
    TodoView { id: (v.next_id + 1) as u64, title, done: false }
}

/// The list after creating a todo with `title`: it is added at the end.
pub open spec fn after_create(v: StoreView, title: Seq<char>) -> StoreView {
    StoreView { todos: v.todos.push(new_todo(v, title)), next_id: v.next_id + 1 }
}

/// `t` with `done` flipped when its id is `id`.
pub open spec fn flip_if(t: TodoView, id: u64) -> TodoView {
    if t.id == id {
        TodoView { id: t.id, title: t.title, done: !t.done }
    } else {
        t
    }
}

/// The todos after flipping the one with id `id`.
pub open spec fn toggled(todos: Seq<TodoView>, id: u64) -> Seq<TodoView> {
    todos.map_values(|t: TodoView| flip_if(t, id))
}

/// The todos whose id is not `id`, in order.
pub open spec fn removed(todos: Seq<TodoView>, id: u64) -> Seq<TodoView> {
    todos.filter(|t: TodoView| t.id != id)
}

/// The in-memory todo list.
pub struct TodoStore {
    todos: Vec<Todo>,
    next_id: u64,
}

impl View for TodoStore {
    type V = StoreView;

    closed spec fn view(&self) -> StoreView {
        StoreView { todos: views(self.todos@), next_id: self.next_id as nat }
    }
}

proof fn lemma_removed_step(s: Seq<TodoView>, id: u64, i: int)
    requires
        0 <= i < s.len(),
    ensures
        removed(s.take(i + 1), id) == if s[i].id != id {
            removed(s.take(i), id).push(s[i])
        } else {
            removed(s.take(i), id)
        },
{
    reveal_with_fuel(Seq::filter, 1);
    assert(s.take(i + 1).drop_last() =~= s.take(i));
    assert(s.take(i + 1).last() == s[i]);
}

proof fn lemma_removed_all_kept(todos: Seq<TodoView>, id: u64)
    requires
        forall|i: int| 0 <= i < todos.len() ==> (#[trigger] todos[i]).id != id,
    ensures
        removed(todos, id) == todos,
    decreases todos.len(),
{
    reveal_with_fuel(Seq::filter, 1);
    if todos.len() > 0 {
        let rest = todos.drop_last();
        assert forall|i: int| 0 <= i < rest.len() implies (#[trigger] rest[i]).id != id by {
            assert(rest[i] == todos[i]);
        }
        lemma_removed_all_kept(rest, id);
        assert(todos.last() == todos[todos.len() - 1]);
        assert(rest.push(todos.last()) =~= todos);
    }
}

/// Flipping the same todo twice gives back the list as it was.
pub proof fn toggle_twice_restores(todos: Seq<TodoView>, id: u64)
    ensures
        toggled(toggled(todos, id), id) == todos,
{
    assert(toggled(toggled(todos, id), id) =~= todos);
}

/// Flipping changes nothing but `done` of the todos with that id: the
/// length, the order, every id and every title stay.
pub proof fn toggle_keeps_ids_and_titles(todos: Seq<TodoView>, id: u64)
    ensures
        toggled(todos, id).len() == todos.len(),
        forall|i: int|
            0 <= i < todos.len() ==> {
                &&& (#[trigger] toggled(todos, id)[i]).id == todos[i].id
                &&& toggled(todos, id)[i].title == todos[i].title
                &&& toggled(todos, id)[i].done == (todos[i].done != (todos[i].id == id))
            },
{
}

/// Flipping an id that no todo has changes nothing.
pub proof fn toggle_unknown_keeps(todos: Seq<TodoView>, id: u64)
    requires
        !has_id(todos, id),
    ensures
        toggled(todos, id) == todos,
{
    assert(toggled(todos, id) =~= todos);
}

/// Removing an id that no todo has changes nothing.
pub proof fn delete_unknown_keeps(todos: Seq<TodoView>, id: u64)
    requires
        !has_id(todos, id),
    ensures
        removed(todos, id) == todos,
{
    lemma_removed_all_kept(todos, id);
}

/// After removing an id, no todo has it, and every todo with another id is
/// still there.
pub proof fn delete_removes_only_that_id(todos: Seq<TodoView>, id: u64)
    ensures
        !has_id(removed(todos, id), id),
        forall|i: int|
            0 <= i < todos.len() && todos[i].id != id ==> removed(todos, id).contains(
                #[trigger] todos[i],
            ),
{
    broadcast use vstd::seq_lib::group_filter_ensures;

    if has_id(removed(todos, id), id) {
        let w = choose|w: int| 0 <= w < removed(todos, id).len() && removed(todos, id)[w].id == id;
        assert((|t: TodoView| t.id != id)(removed(todos, id)[w]));
    }
}

/// Removing the same id twice is removing it once.
pub proof fn delete_twice_is_delete_once(todos: Seq<TodoView>, id: u64)
    ensures
        removed(removed(todos, id), id) == removed(todos, id),
{
    delete_removes_only_that_id(todos, id);
    delete_unknown_keeps(removed(todos, id), id);
}

/// A created todo gets an id larger than every id in the list, so the list
/// stays in id order and keeps what holds of every list.
pub proof fn create_keeps_id_order(v: StoreView, title: Seq<char>)
    requires
        store_invariant(v),
        v.next_id < u64::MAX,
    ensures
        forall|i: int| 0 <= i < v.todos.len() ==> (#[trigger] v.todos[i]).id < new_todo(v, title).id,
        store_invariant(after_create(v, title)),
{
    let w = after_create(v, title);
    assert forall|i: int, j: int| 0 <= i < j < w.todos.len() implies w.todos[i].id
        < w.todos[j].id by {
        if j == v.todos.len() {
            assert(v.todos[i].id <= v.next_id);
        } else {
            assert(w.todos[i] == v.todos[i] && w.todos[j] == v.todos[j]);
        }
    }
    assert forall|i: int| 0 <= i < w.todos.len() implies 1 <= #[trigger] w.todos[i].id
        <= w.next_id by {
        if i < v.todos.len() {
            assert(w.todos[i] == v.todos[i]);
        }
    }
}

/// A created todo is listed last, after the todos that were there.
pub proof fn created_todo_is_listed_last(v: StoreView, title: Seq<char>)
    ensures
        after_create(v, title).todos.len() == v.todos.len() + 1,
        after_create(v, title).todos.last() == new_todo(v, title),
        after_create(v, title).todos.drop_last() == v.todos,
        new_todo(v, title).title == title,
        !new_todo(v, title).done,
{
    assert(after_create(v, title).todos.drop_last() =~= v.todos);
}

/// A created todo's id is one more than the last id ever given out, so it
/// differs from every id given out before, listed or deleted, and is larger
/// than every listed id; the counter moves on by one.
pub proof fn created_id_is_never_reused(v: StoreView, title: Seq<char>, issued: int)
    requires
        store_invariant(v),
        v.next_id < u64::MAX,
        1 <= issued <= v.next_id,
    ensures
        new_todo(v, title).id == v.next_id + 1,
        new_todo(v, title).id != issued,
        forall|i: int| 0 <= i < v.todos.len() ==> (#[trigger] v.todos[i]).id < new_todo(v, title).id,
        after_create(v, title).next_id == v.next_id + 1,
        after_create(v, title).todos.last().id == v.next_id + 1,
{
    create_keeps_id_order(v, title);
}

/// Deleting a todo and then creating one never gives the new todo the
/// deleted id: the counter is not moved back by a deletion.
pub proof fn delete_then_create_gives_a_fresh_id(v: StoreView, id: u64, title: Seq<char>)
    requires
        store_invariant(v),
        v.next_id < u64::MAX,
        has_id(v.todos, id),
    ensures
        new_todo(StoreView { todos: removed(v.todos, id), next_id: v.next_id }, title).id == v.next_id
            + 1,
        new_todo(StoreView { todos: removed(v.todos, id), next_id: v.next_id }, title).id > id,
{
    let i = choose|i: int| 0 <= i < v.todos.len() && v.todos[i].id == id;
    assert(v.todos[i].id <= v.next_id);
}

/// Removing a todo right after creating it gives back the todos as they
/// were.
pub proof fn create_then_delete_restores(v: StoreView, title: Seq<char>)
    requires
        store_invariant(v),
        v.next_id < u64::MAX,
    ensures
        removed(after_create(v, title).todos, new_todo(v, title).id) == v.todos,
{
    let t = new_todo(v, title);
    let pushed = v.todos.push(t);
    reveal_with_fuel(Seq::filter, 1);
    assert(pushed.drop_last() =~= v.todos);
    assert forall|i: int| 0 <= i < v.todos.len() implies (#[trigger] v.todos[i]).id != t.id by {
        assert(v.todos[i].id <= v.next_id);
    }
    lemma_removed_all_kept(v.todos, t.id);
}

impl TodoStore {
    /// The list is well formed.
    pub open spec fn wf(&self) -> bool {
        store_invariant(self@)
    }

    /// The index of the todo with this id, if any.
    fn position(&self, id: u64) -> (r: Option<usize>)
        ensures
            match r {
                Some(i) => i < self.todos.len() && self@.todos[i as int].id == id,
                None => !has_id(self@.todos, id),
            },
    {
        let n = self.todos.len();
        let mut i: usize = 0;
        while i < n
            invariant
                n == self.todos.len(),
                i <= n,
                forall|k: int| 0 <= k < i ==> (#[trigger] self@.todos[k]).id != id,
            decreases n - i,
        {
            if self.todos[i].id == id {
                return Some(i);
            }
            i = i + 1;
        }
        None
    }

    /// An empty list; the first todo will get id 1.
    pub fn new() -> (s: Self)
        ensures
            s.wf(),
            s@.todos.len() == 0,
            s@.next_id == 0,
    {
        let s = TodoStore { todos: Vec::new(), next_id: 0 };
        assert(views(s.todos@) =~= Seq::<TodoView>::empty());
        s
    }

    /// The last id given out (0 before the first todo).
    pub fn last_id(&self) -> (r: u64)
        ensures
            r == self@.next_id,
    {
        self.next_id
    }

    /// All todos, in the order they were created, which is the order of
    /// their ids.
    pub fn list(&self) -> (r: Vec<Todo>)
        requires
            self.wf(),
        ensures
            views(r@) == self@.todos,
            ids_ascending(views(r@)),
    {
        let mut out: Vec<Todo> = Vec::new();
        let n = self.todos.len();
        for i in 0..n
            invariant
                n == self.todos.len(),
                out.len() == i,
                views(out@) == views(self.todos@).take(i as int),
        {
            let ghost prev = out@;
            let copy = self.todos[i].duplicate();
            out.push(copy);
            assert(views(out@) =~= views(self.todos@).take(i + 1)) by {
                assert forall|k: int| 0 <= k < i implies views(out@)[k] == views(
                    self.todos@,
                ).take(i + 1)[k] by {
                    assert(views(prev)[k] == views(self.todos@).take(i as int)[k]);
                }
            }
        }
        assert(views(self.todos@).take(n as int) =~= views(self.todos@));
        out
    }

    /// Adds a todo with the payload's title, without its surrounding white
    /// space: it gets the next id and is not done, and is answered with
    /// `Created`. An empty title is refused with `BadRequest` and changes
    /// nothing.
    pub fn create(&mut self, payload: CreateTodo) -> (r: Result<(Status, Todo), Status>)
        requires
            old(self).wf(),
            trimmed(payload.title@).len() > 0 ==> old(self)@.next_id < u64::MAX,
        ensures
            final(self).wf(),
            match r {
                Ok((status, todo)) => {
                    &&& trimmed(payload.title@).len() > 0
                    &&& status == Status::Created
                    &&& todo@ == new_todo(old(self)@, trimmed(payload.title@))
                    &&& final(self)@ == after_create(old(self)@, trimmed(payload.title@))
                    &&& todo.id == old(self)@.next_id + 1
                    &&& final(self)@.next_id == old(self)@.next_id + 1
                    &&& todo.title@ == trimmed(payload.title@)
                    &&& !todo.done
                    &&& final(self)@.todos == old(self)@.todos.push(todo@)
                },
                Err(status) => {
                    &&& trimmed(payload.title@).len() == 0
                    &&& status == Status::BadRequest
                    &&& final(self)@ == old(self)@
                },
            },
    {
        let title = trim(payload.title.as_str());
        if title.is_empty() {
            return Err(Status::BadRequest);
        }
        let title = String::from_str(title);
        let ghost before = self@;
        self.next_id = self.next_id + 1;
        let todo = Todo { id: self.next_id, title, done: false };
        self.todos.push(todo.duplicate());
        assert(views(self.todos@) =~= before.todos.push(todo@));
        Ok((Status::Created, todo))
    }

    /// Flips `done` of the todo with this id and answers with it; an
    /// unknown id is answered with `NotFound` and changes nothing.
    pub fn toggle(&mut self, id: u64) -> (r: Result<Todo, Status>)
        requires
            old(self).wf(),
        ensures
            final(self).wf(),
            final(self)@.next_id == old(self)@.next_id,
            final(self)@.todos == toggled(old(self)@.todos, id),
            match r {
                Ok(todo) => exists|i: int|
                    0 <= i < old(self)@.todos.len() && old(self)@.todos[i].id == id && todo@
                        == flip_if(#[trigger] old(self)@.todos[i], id),
                Err(status) => status == Status::NotFound && !has_id(old(self)@.todos, id),
            },
    {
        let ghost before = self@;
        match self.position(id) {
            None => {
                assert(toggled(before.todos, id) =~= before.todos);
                Err(Status::NotFound)
            },
            Some(i) => {
                let mut flipped = self.todos[i].duplicate();
                flipped.done = !flipped.done;
                let reply = flipped.duplicate();
                self.todos.set(i, flipped);
                proof {
                    assert forall|k: int| 0 <= k < before.todos.len() && k != i implies (
                    #[trigger] before.todos[k]).id != id by {
                        if k < i {
                            assert(before.todos[k].id < before.todos[i as int].id);
                        } else {
                            assert(before.todos[i as int].id < before.todos[k].id);
                        }
                    }
                    assert(views(self.todos@) =~= toggled(before.todos, id));
                }
                Ok(reply)
            },
        }
    }

    /// Removes the todo with this id, answering `NoContent`; an unknown id
    /// is answered with `NotFound` and changes nothing.
    pub fn delete(&mut self, id: u64) -> (r: Status)
        requires
            old(self).wf(),
        ensures
            final(self).wf(),
            final(self)@.next_id == old(self)@.next_id,
            final(self)@.todos == removed(old(self)@.todos, id),
            r == if has_id(old(self)@.todos, id) {
                Status::NoContent
            } else {
                Status::NotFound
            },
    {
        let ghost before = self@;
        let ghost s = before.todos;
        let n = self.todos.len();
        let mut kept: Vec<Todo> = Vec::new();
        let mut found = false;
        let ghost mut last_j: int = 0;
        assert(s.take(0) =~= Seq::<TodoView>::empty());
        proof {
            reveal_with_fuel(Seq::filter, 1);
        }
        for i in 0..n
            invariant
                n == self.todos.len(),
                self@ == before,
                s == before.todos,
                store_invariant(before),
                views(kept@) == removed(s.take(i as int), id),
                found == has_id(s.take(i as int), id),
                ids_ascending(views(kept@)),
                forall|k: int|
                    0 <= k < kept.len() ==> 1 <= #[trigger] views(kept@)[k].id <= before.next_id,
                kept.len() > 0 ==> 0 <= last_j < i && views(kept@).last() == s[last_j],
        {
            proof {
                lemma_removed_step(s, id, i as int);
            }
            let ghost prev = views(kept@);
            if self.todos[i].id != id {
                kept.push(self.todos[i].duplicate());
                proof {
                    assert(views(kept@) =~= prev.push(s[i as int]));
                    if prev.len() > 0 {
                        assert(s[last_j].id < s[i as int].id);
                    }
                    last_j = i as int;
                }
            } else {
                found = true;
                assert(s.take(i + 1)[i as int].id == id);
            }
            proof {
                if !found {
                    assert forall|k: int| 0 <= k < i + 1 implies (#[trigger] s.take(i + 1)[k]).id
                        != id by {
                        if k < i {
                            assert(s.take(i as int)[k] == s.take(i + 1)[k]);
                        }
                    }
                } else if has_id(s.take(i as int), id) {
                    let w = choose|w: int| 0 <= w < i && s.take(i as int)[w].id == id;
                    assert(s.take(i + 1)[w] == s.take(i as int)[w]);
                }
            }
        }
        assert(s.take(n as int) =~= s);
        self.todos = kept;
        if found {
            Status::NoContent
        } else {
            Status::NotFound
        }
    }
}

} // verus!
