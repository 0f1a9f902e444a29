//! Todos: per-member task entries, created in a fan-out across members as one
//! atomic batch.

use vstd::prelude::*;
use vstd::string::StringExecFns;

use crate::error::Error;
use crate::store::Store;
use crate::util::{lemma_filter_push, lemma_take_step};

verus! {

/// One member's task entry.
#[derive(Debug, PartialEq, Eq, Clone)]
pub struct Todo {
    pub id: i32,
    pub text: String,
    pub member: String,
    pub completed: bool,
}

/// A task to fan out: one entry per named member.
#[derive(Debug, PartialEq, Eq, Clone)]
pub struct NewTodo {
    pub text: String,
    pub members: Vec<String>,
}

impl Todo {
    /// An equal todo value.
    pub fn cloned(&self) -> (r: Todo)
        ensures
            r == *self,
    {
        Todo {
            id: self.id,
            text: self.text.clone(),
            member: self.member.clone(),
            completed: self.completed,
        }
    }
}

/// The todo marked complete.
pub open spec fn todo_completed(t: Todo) -> Todo {
    Todo { id: t.id, text: t.text, member: t.member, completed: true }
}

/// The entries a fan-out creates: one incomplete todo per member, with
/// consecutive ids from `first_id`.
pub open spec fn fanned_out(text: String, members: Seq<String>, first_id: i32) -> Seq<Todo> {
    Seq::new(
        members.len(),
        |i: int| Todo {
            id: (first_id + i) as i32,
            text,
            member: members[i],
            completed: false,
        },
    )
}

/// Some todo in the sequence carries this id.
pub open spec fn has_todo(todos: Seq<Todo>, id: i32) -> bool {
    exists|i: int| 0 <= i < todos.len() && (#[trigger] todos[i]).id == id
}

/// The index of the todo with this id (meaningful when ids are unique and the
/// id is present).
pub open spec fn todo_index(todos: Seq<Todo>, id: i32) -> int {
    choose|i: int| 0 <= i < todos.len() && (#[trigger] todos[i]).id == id
}

/// The todo with this id.
pub open spec fn todo_at(todos: Seq<Todo>, id: i32) -> Todo {
    todos[todo_index(todos, id)]
}

/// No two todos share an id.
pub open spec fn unique_todo_ids(todos: Seq<Todo>) -> bool {
    forall|i: int, j: int|
        0 <= i < j < todos.len() ==> (#[trigger] todos[i]).id != (#[trigger] todos[j]).id
}

/// With unique ids, any index whose todo carries the id is the canonical one.
pub proof fn lemma_todo_index_is(todos: Seq<Todo>, id: i32, k: int)
    requires
        unique_todo_ids(todos),
        0 <= k < todos.len(),
        todos[k].id == id,
    ensures
        todo_index(todos, id) == k,
        has_todo(todos, id),
{
    assert(has_todo(todos, id));
    let j = todo_index(todos, id);
    if j != k {
        assert(todos[j].id != todos[k].id);
    }
}

/// Replacing a todo by one with the same id keeps the ids unique.
pub proof fn lemma_unique_todo_after_update(todos: Seq<Todo>, k: int, t2: Todo)
    requires
        unique_todo_ids(todos),
        0 <= k < todos.len(),
        t2.id == todos[k].id,
    ensures
        unique_todo_ids(todos.update(k, t2)),
{
}

impl Todo {
    /// The index of the todo with this id, when one exists.
    #[verifier::loop_isolation(false)]
    fn find(store: &Store, id: i32) -> (r: Option<usize>)
        requires
            unique_todo_ids(store.todos@),
        ensures
            match r {
                Some(k) => has_todo(store.todos@, id) && k as int == todo_index(store.todos@, id),
                None => !has_todo(store.todos@, id),
            },
    {
        let n = store.todos.len();
        for i in 0..n
            invariant
                forall|k: int| 0 <= k < i ==> (#[trigger] store.todos@[k]).id != id,
        {
            if store.todos[i].id == id {
                proof {
                    lemma_todo_index_is(store.todos@, id, i as int);
                }
                return Some(i);
            }
        }
        proof {
            assert(!has_todo(store.todos@, id)) by {
                if has_todo(store.todos@, id) {
                    let j = choose|j: int|
                        0 <= j < store.todos@.len() && (#[trigger] store.todos@[j]).id == id;
                    assert(store.todos@[j].id != id);
                }
            }
        }
        None
    }

    /// The todo with this id.
    pub fn load(store: &Store, todo_id: i32) -> (r: Result<Todo, Error>)
        requires
            store.wf(),
        ensures
            r is Ok <==> has_todo(store.todos@, todo_id),
            r matches Ok(t) ==> t == todo_at(store.todos@, todo_id),
            r matches Err(e) ==> e is NotFound,
    {
        match Todo::find(store, todo_id) {
            Some(k) => Ok(store.todos[k].cloned()),
            None => Err(Error::NotFound(String::from_str("No todo with that id."))),
        }
    }

    /// The member's completed todos, in stored order.
    #[verifier::loop_isolation(false)]
    pub fn load_all_for_member(store: &Store, member: &String) -> (r: Vec<Todo>)
        ensures
            r@ == store.todos@.filter(|t: Todo| t.member@ == member@ && t.completed),
    {
        let ghost pred = |t: Todo| t.member@ == member@ && t.completed;
        let mut rows: Vec<Todo> = Vec::new();
        let n = store.todos.len();
        for i in 0..n
            invariant
                rows@ == store.todos@.take(i as int).filter(pred),
        {
            proof {
                lemma_take_step(store.todos@, i as int);
                lemma_filter_push(store.todos@.take(i as int), store.todos@[i as int], pred);
            }
            let t = &store.todos[i];
            if t.completed && t.member == *member {
                rows.push(t.cloned());
            }
        }
        proof {
            assert(store.todos@.take(n as int) =~= store.todos@);
        }
        rows
    }

    /// Fan a task out to the named members: one incomplete entry per member
    /// under consecutive fresh ids, as one atomic batch — if the id space
    /// cannot seat the whole batch, nothing is written at all.
    #[verifier::loop_isolation(false)]
    pub fn create(store: &mut Store, new_todo: &NewTodo) -> (r: Result<(), Error>)
        requires
            old(store).wf(),
        ensures
            final(store).wf(),
            final(store).only_todos_changed(*old(store)),
            r is Ok <==> old(store).next_id + new_todo.members@.len() <= i32::MAX,
            r is Ok ==> final(store).todos@ == old(store).todos@ + fanned_out(
                new_todo.text,
                new_todo.members@,
                old(store).next_id,
            ) && final(store).next_id == old(store).next_id + new_todo.members@.len(),
            r is Err ==> *final(store) == *old(store),
            r matches Err(e) ==> e is ServerError,
    {
        let start = store.next_id;
        let room = (i32::MAX - start) as usize;
        if new_todo.members.len() > room {
            return Err(Error::ServerError(String::from_str("The id space is exhausted.")));
        }
        let m = new_todo.members.len();
        for k in 0..m
            invariant
                store.only_todos_changed(*old(store)),
                store.next_id == old(store).next_id,
                m == new_todo.members@.len(),
                m + start <= i32::MAX,
                store.todos@ == old(store).todos@ + fanned_out(
                    new_todo.text,
                    new_todo.members@.take(k as int),
                    start,
                ),
        {
            let t2 = Todo {
                id: start + k as i32,
                text: new_todo.text.clone(),
                member: new_todo.members[k].clone(),
                completed: false,
            };
            proof {
                assert(old(store).todos@ + fanned_out(
                    new_todo.text,
                    new_todo.members@.take(k as int),
                    start,
                ).push(t2) =~= old(store).todos@ + fanned_out(
                    new_todo.text,
                    new_todo.members@.take(k as int + 1),
                    start,
                ));
            }
            store.todos.push(t2);
        }
        proof {
            assert(new_todo.members@.take(m as int) =~= new_todo.members@);
        }
        store.next_id = start + m as i32;
        proof {
            let post = store.todos@;
            let pre_len = old(store).todos@.len() as int;
            assert forall|i: int, j: int| 0 <= i < j < post.len() implies (#[trigger] post[i]).id
                != (#[trigger] post[j]).id by {
                if i < pre_len && j >= pre_len {
                    assert(post[i].id < start);
                    assert(post[j].id == start + (j - pre_len));
                }
            }
            assert forall|i: int| 0 <= i < post.len() implies (#[trigger] post[i]).id
                < store.next_id by {
                if i >= pre_len {
                    assert(post[i].id == start + (i - pre_len));
                }
            }
        }
        Ok(())
    }

    /// Mark a todo complete.
    pub fn mark_complete(store: &mut Store, todo_id: i32) -> (r: Result<(), Error>)
        requires
            old(store).wf(),
        ensures
            final(store).wf(),
            final(store).only_todos_changed(*old(store)),
            final(store).next_id == old(store).next_id,
            r is Ok <==> has_todo(old(store).todos@, todo_id),
            r is Ok ==> final(store).todos@ == old(store).todos@.update(
                todo_index(old(store).todos@, todo_id),
                todo_completed(todo_at(old(store).todos@, todo_id)),
            ),
            r is Err ==> *final(store) == *old(store),
            r matches Err(e) ==> e is NotFound,
    {
        let k = match Todo::find(store, todo_id) {
            Some(k) => k,
            None => {
                return Err(Error::NotFound(String::from_str("No todo with that id.")));
            },
        };
        proof {
            lemma_unique_todo_after_update(
                store.todos@,
                k as int,
                todo_completed(store.todos@[k as int]),
            );
        }
        store.todos[k].completed = true;
        Ok(())
    }
}

} // verus!
