//! Notes attached to a todo: an optional ordered list of free-text
//! lines. The list is created when the first note arrives and reverts
//! to absent — not to present-but-empty — when its last note is
//! removed.

use vstd::prelude::*;
use crate::modify::{find_todo_index, first_index_of, id_taken, lemma_first_match_unique};
use crate::{AppError, Todo};

verus! {

/// The fields a note operation leaves untouched: everything but
/// `notes`.
pub open spec fn same_but_notes(a: Todo, b: Todo) -> bool {
    &&& a.id == b.id
    &&& a.uuid == b.uuid
    &&& a.subject == b.subject
    &&& a.projects == b.projects
    &&& a.contexts == b.contexts
    &&& a.due == b.due
    &&& a.completed == b.completed
    &&& a.completed_date == b.completed_date
    &&& a.status == b.status
    &&& a.archived == b.archived
    &&& a.is_priority == b.is_priority
    &&& a.recur == b.recur
    &&& a.recur_until == b.recur_until
    &&& a.prev_recur_todo_uuid == b.prev_recur_todo_uuid
}

/// Appends a note to the todo with this id, creating the notes list
/// when it is absent. Fails with `IdNotFound` and no mutation when the
/// id is absent.
pub fn add_note(todos: &mut Vec<Todo>, id: u64, note: String) -> (r: Result<(), AppError>)
    ensures
        !id_taken(old(todos)@, id) ==> r == Err::<(), AppError>(AppError::IdNotFoundError(id))
            && final(todos)@ == old(todos)@,
        id_taken(old(todos)@, id) ==> ({
            let i = first_index_of(old(todos)@, id);
            let t0 = old(todos)@[i];
            let t = final(todos)@[i];
            &&& r == Ok::<(), AppError>(())
            &&& final(todos)@ == old(todos)@.update(i, t)
            &&& same_but_notes(t, t0)
            &&& t.notes matches Some(ns) && ns@ == (match t0.notes {
                Some(ns0) => ns0@.push(note),
                None => seq![note],
            })
        }),
{
    let i = match find_todo_index(todos, id) {
        Ok(i) => i,
        Err(e) => { return Err(e) },
    };
    proof {
        lemma_first_match_unique(todos@, id, i as int);
    }
    let mut ns: Vec<String> = match todos[i].notes.take() {
        Some(v) => v,
        None => Vec::new(),
    };
    ns.push(note);
    todos[i].notes = Some(ns);
    proof {
        assert(todos@ =~= old(todos)@.update(i as int, todos@[i as int]));
    }
    Ok(())
}

/// Replaces the note at `index` on the todo with this id. An absent
/// todo fails with `IdNotFound`; an absent note — the index out of
/// bounds, or no notes at all — fails with `NoteNotFound`; neither
/// failure mutates anything.
pub fn edit_note(todos: &mut Vec<Todo>, id: u64, index: usize, note: String) -> (r: Result<
    (),
    AppError,
>)
    ensures
        !id_taken(old(todos)@, id) ==> r == Err::<(), AppError>(AppError::IdNotFoundError(id))
            && final(todos)@ == old(todos)@,
        id_taken(old(todos)@, id) ==> ({
            let i = first_index_of(old(todos)@, id);
            let t0 = old(todos)@[i];
            let t = final(todos)@[i];
            match t0.notes {
                Some(ns0) => if index < ns0@.len() {
                    &&& r == Ok::<(), AppError>(())
                    &&& final(todos)@ == old(todos)@.update(i, t)
                    &&& same_but_notes(t, t0)
                    &&& t.notes matches Some(ns) && ns@ == ns0@.update(index as int, note)
                } else {
                    &&& r == Err::<(), AppError>(AppError::NoteNotFoundError(id, index))
                    &&& final(todos)@ == old(todos)@
                },
                None => {
                    &&& r == Err::<(), AppError>(AppError::NoteNotFoundError(id, index))
                    &&& final(todos)@ == old(todos)@
                },
            }
        }),
{
    let i = match find_todo_index(todos, id) {
        Ok(i) => i,
        Err(e) => { return Err(e) },
    };
    proof {
        lemma_first_match_unique(todos@, id, i as int);
    }
    let mut ns: Vec<String> = match todos[i].notes.take() {
        Some(v) => v,
        None => {
            proof {
                assert(todos@ =~= old(todos)@);
            }
            return Err(AppError::NoteNotFoundError(id, index));
        },
    };
    if index < ns.len() {
        ns[index] = note;
        todos[i].notes = Some(ns);
        proof {
            assert(todos@ =~= old(todos)@.update(i as int, todos@[i as int]));
        }
        Ok(())
    } else {
        todos[i].notes = Some(ns);
        proof {
            assert(todos@ =~= old(todos)@);
        }
        Err(AppError::NoteNotFoundError(id, index))
    }
}

/// Removes the note at `index` on the todo with this id; when the last
/// note goes, the list itself reverts to absent. An absent todo fails
/// with `IdNotFound`; an absent note fails with `NoteNotFound`;
/// neither failure mutates anything.
pub fn delete_note(todos: &mut Vec<Todo>, id: u64, index: usize) -> (r: Result<(), AppError>)
    ensures
        !id_taken(old(todos)@, id) ==> r == Err::<(), AppError>(AppError::IdNotFoundError(id))
            && final(todos)@ == old(todos)@,
        id_taken(old(todos)@, id) ==> ({
            let i = first_index_of(old(todos)@, id);
            let t0 = old(todos)@[i];
            let t = final(todos)@[i];
            match t0.notes {
                Some(ns0) => if index < ns0@.len() {
                    &&& r == Ok::<(), AppError>(())
                    &&& final(todos)@ == old(todos)@.update(i, t)
                    &&& same_but_notes(t, t0)
                    &&& (ns0@.len() == 1 ==> t.notes is None)
                    &&& (ns0@.len() > 1 ==> (t.notes matches Some(ns) && ns@ == ns0@.remove(
                        index as int,
                    )))
                } else {
                    &&& r == Err::<(), AppError>(AppError::NoteNotFoundError(id, index))
                    &&& final(todos)@ == old(todos)@
                },
                None => {
                    &&& r == Err::<(), AppError>(AppError::NoteNotFoundError(id, index))
                    &&& final(todos)@ == old(todos)@
                },
            }
        }),
{
    let i = match find_todo_index(todos, id) {
        Ok(i) => i,
        Err(e) => { return Err(e) },
    };
    proof {
        lemma_first_match_unique(todos@, id, i as int);
    }
    let mut ns: Vec<String> = match todos[i].notes.take() {
        Some(v) => v,
        None => {
            proof {
                assert(todos@ =~= old(todos)@);
            }
            return Err(AppError::NoteNotFoundError(id, index));
        },
    };
    if index < ns.len() {
        ns.remove(index);
        if ns.len() == 0 {
            todos[i].notes = None;
        } else {
            todos[i].notes = Some(ns);
        }
        proof {
            assert(todos@ =~= old(todos)@.update(i as int, todos@[i as int]));
        }
        Ok(())
    } else {
        todos[i].notes = Some(ns);
        proof {
            assert(todos@ =~= old(todos)@);
        }
        Err(AppError::NoteNotFoundError(id, index))
    }
}

} // verus!
