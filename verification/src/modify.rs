//! The mutating operations of the todo store: creation with tag
//! derivation and lowest-free-id allocation, lookup by id, and the
//! edit, delete, status, complete and prioritize operations.

use vstd::prelude::*;
use vstd::set_lib::{lemma_int_range, set_int_range};
use vstd::relations::injective_on;
use crate::text::{split_words, words_of};
use crate::serde_date::SerdeDate;
use crate::serde_date_time::SerdeDateTime;
use crate::{AppError, Todo};

verus! {

/// Whether a word carries a tag: a leading sigil with at least one
/// character after it.
pub open spec fn is_tag_word(w: Seq<char>, sigil: char) -> bool {
    w.len() >= 2 && w[0] == sigil
}

/// The tags among `ws` marked with `sigil`, in order, sigils stripped.
pub open spec fn tags_of(ws: Seq<Seq<char>>, sigil: char) -> Seq<Seq<char>>
    decreases ws.len(),
{
    if ws.len() == 0 {
        Seq::empty()
    } else {
        tags_of(ws.drop_last(), sigil) + if is_tag_word(ws.last(), sigil) {
            seq![ws.last().subrange(1, ws.last().len() as int)]
        } else {
            Seq::empty()
        }
    }
}

/// The `+project` tags of a subject line.
pub open spec fn projects_of(s: Seq<char>) -> Seq<Seq<char>> {
    tags_of(words_of(s), '+')
}

/// The `@context` tags of a subject line.
pub open spec fn contexts_of(s: Seq<char>) -> Seq<Seq<char>> {
    tags_of(words_of(s), '@')
}

/// Extracts the `@context` and `+project` tags of a subject line, in
/// that order.
pub fn get_contexts_and_projects(sub: &str) -> (r: (Vec<String>, Vec<String>))
    ensures
        r.0@.map_values(|w: String| w@) == contexts_of(sub@),
        r.1@.map_values(|w: String| w@) == projects_of(sub@),
{
    let words = split_words(sub);
    let ghost ws = words@.map_values(|w: String| w@);
    let mut ctx: Vec<String> = Vec::new();
    let mut projs: Vec<String> = Vec::new();
    let mut j: usize = 0;
    proof {
        assert(ws.take(0) =~~= Seq::<Seq<char>>::empty());
    }
    while j < words.len()
        invariant
            j <= words@.len(),
            ws == words@.map_values(|w: String| w@),
            ws == words_of(sub@),
            ctx@.map_values(|w: String| w@) == tags_of(ws.take(j as int), '@'),
            projs@.map_values(|w: String| w@) == tags_of(ws.take(j as int), '+'),
        decreases words@.len() - j,
    {
        let ghost prev = ws.take(j as int);
        proof {
            assert(ws.take(j + 1).drop_last() =~~= prev);
            assert(ws.take(j + 1).last() == ws[j as int]);
        }
        let w = &words[j];
        let n = w.as_str().unicode_len();
        if n >= 2 {
            let c0 = w.as_str().get_char(0);
            if c0 == '+' {
                let t = String::from_str(w.as_str().substring_char(1, n));
                proof {
                    assert(projs@.push(t).map_values(|x: String| x@) =~~= projs@.map_values(
                        |x: String| x@,
                    ).push(t@));
                    assert(tags_of(ws.take(j + 1), '+') =~~= tags_of(prev, '+').push(
                        ws[j as int].subrange(1, ws[j as int].len() as int),
                    ));
                    assert(tags_of(ws.take(j + 1), '@') =~~= tags_of(prev, '@'));
                }
                projs.push(t);
            } else if c0 == '@' {
                let t = String::from_str(w.as_str().substring_char(1, n));
                proof {
                    assert(ctx@.push(t).map_values(|x: String| x@) =~~= ctx@.map_values(
                        |x: String| x@,
                    ).push(t@));
                    assert(tags_of(ws.take(j + 1), '@') =~~= tags_of(prev, '@').push(
                        ws[j as int].subrange(1, ws[j as int].len() as int),
                    ));
                    assert(tags_of(ws.take(j + 1), '+') =~~= tags_of(prev, '+'));
                }
                ctx.push(t);
            } else {
                proof {
                    assert(tags_of(ws.take(j + 1), '@') =~~= tags_of(prev, '@'));
                    assert(tags_of(ws.take(j + 1), '+') =~~= tags_of(prev, '+'));
                }
            }
        } else {
            proof {
                assert(tags_of(ws.take(j + 1), '@') =~~= tags_of(prev, '@'));
                assert(tags_of(ws.take(j + 1), '+') =~~= tags_of(prev, '+'));
            }
        }
        j = j + 1;
    }
    proof {
        assert(ws.take(words@.len() as int) =~~= ws);
    }
    (ctx, projs)
}

/// Whether some todo currently carries this id.
pub open spec fn id_taken(todos: Seq<Todo>, id: u64) -> bool {
    exists|i: int| 0 <= i < todos.len() && todos[i].id == id
}

/// Whether `i` is the position of the first todo with this id.
pub open spec fn is_first_match(todos: Seq<Todo>, id: u64, i: int) -> bool {
    &&& 0 <= i < todos.len()
    &&& todos[i].id == id
    &&& forall|j: int| 0 <= j < i ==> todos[j].id != id
}

/// The position of the first todo with this id (meaningful only when
/// the id is taken).
pub open spec fn first_index_of(todos: Seq<Todo>, id: u64) -> int {
    choose|i: int| is_first_match(todos, id, i)
}

/// A taken id has a first match, and it is `first_index_of`.
pub proof fn lemma_first_match_exists(todos: Seq<Todo>, id: u64)
    requires
        id_taken(todos, id),
    ensures
        is_first_match(todos, id, first_index_of(todos, id)),
    decreases todos.len(),
{
    if todos[0].id == id {
        assert(is_first_match(todos, id, 0));
    } else {
        let rest = todos.subrange(1, todos.len() as int);
        let w = choose|i: int| 0 <= i < todos.len() && todos[i].id == id;
        assert(rest[w - 1].id == id);
        lemma_first_match_exists(rest, id);
        let i = first_index_of(rest, id);
        assert(forall|j: int| 1 <= j < i + 1 ==> todos[j] == rest[j - 1]);
        assert(is_first_match(todos, id, i + 1));
    }
}

/// First matches are unique.
pub proof fn lemma_first_match_unique(todos: Seq<Todo>, id: u64, i: int)
    requires
        is_first_match(todos, id, i),
    ensures
        first_index_of(todos, id) == i,
{
    assert(id_taken(todos, id));
    lemma_first_match_exists(todos, id);
    let k = first_index_of(todos, id);
    if k < i {
        assert(todos[k].id != id);
    } else if i < k {
        assert(todos[i].id != id);
    }
}

/// Whether this id is used by a todo in the vector.
fn id_used(todos: &Vec<Todo>, id: u64) -> (r: bool)
    ensures
        r == id_taken(todos@, id),
{
    let mut i: usize = 0;
    while i < todos.len()
        invariant
            i <= todos@.len(),
            forall|j: int| 0 <= j < i ==> todos@[j].id != id,
        decreases todos@.len() - i,
    {
        if todos[i].id == id {
            return true;
        }
        i = i + 1;
    }
    false
}

/// Pigeonhole: `n` todos cannot occupy all of the `n + 1` ids from 1
/// through `n + 1`, so one of those ids is free.
proof fn lemma_some_id_free(todos: Seq<Todo>)
    requires
        todos.len() + 1 <= u64::MAX,
    ensures
        exists|k: u64| 1 <= k <= todos.len() + 1 && !id_taken(todos, k),
{
    let n = todos.len() as int;
    if forall|k: u64| 1 <= k <= todos.len() + 1 ==> id_taken(todos, k) {
        let ids = set_int_range(1, n + 2);
        lemma_int_range(1, n + 2);
        let pos = |k: int| choose|i: int| 0 <= i < todos.len() && todos[i].id == k as u64;
        assert forall|k: int| ids.contains(k) implies 0 <= #[trigger] pos(k) < n && todos[pos(
            k,
        )].id == k as u64 by {
            assert(id_taken(todos, k as u64));
        }
        assert(injective_on(pos, ids));
        let image = ids.map(pos);
        vstd::set_lib::lemma_map_size(ids, image, pos);
        let range = set_int_range(0, n);
        lemma_int_range(0, n);
        assert forall|x: int| image.contains(x) implies range.contains(x) by {
            let k = choose|k: int| ids.contains(k) && pos(k) == x;
            assert(0 <= pos(k) < n);
        }
        vstd::set_lib::lemma_len_subset(image, range);
        assert(n + 1 <= n);
    }
}

/// The lowest-free-id policy: the smallest positive integer not
/// currently used as an id.
fn find_new_id(todos: &Vec<Todo>) -> (r: u64)
    requires
        todos@.len() + 1 <= u64::MAX,
    ensures
        1 <= r,
        !id_taken(todos@, r),
        forall|k: u64| 1 <= k < r ==> id_taken(todos@, k),
{
    let mut c: u64 = 1;
    loop
        invariant
            todos@.len() + 1 <= u64::MAX,
            1 <= c <= todos@.len() + 1,
            forall|k: u64| 1 <= k < c ==> id_taken(todos@, k),
        ensures
            1 <= c,
            !id_taken(todos@, c),
            forall|k: u64| 1 <= k < c ==> id_taken(todos@, k),
        decreases todos@.len() + 2 - c,
    {
        if !id_used(todos, c) {
            break ;
        }
        proof {
            if c == todos@.len() + 1 {
                lemma_some_id_free(todos@);
            }
        }
        c = c + 1;
    }
    c
}

/// The position of the first todo with this id, or `IdNotFound`.
pub fn find_todo_index(todos: &Vec<Todo>, id: u64) -> (r: Result<usize, AppError>)
    ensures
        match r {
            Ok(i) => is_first_match(todos@, id, i as int),
            Err(e) => e == AppError::IdNotFoundError(id) && !id_taken(todos@, id),
        },
        r is Ok <==> id_taken(todos@, id),
{
    let mut i: usize = 0;
    while i < todos.len()
        invariant
            i <= todos@.len(),
            forall|j: int| 0 <= j < i ==> todos@[j].id != id,
        decreases todos@.len() - i,
    {
        if todos[i].id == id {
            return Ok(i);
        }
        i = i + 1;
    }
    Err(AppError::IdNotFoundError(id))
}

/// Relies on uuid's `Uuid::new_v4` and its `Display`: a fresh random
/// identifier rendered in the 36-character hyphenated form.
#[verifier::external_body]
fn new_uuid_string() -> (r: String)
    ensures
        r@.len() == 36,
{
    uuid::Uuid::new_v4().to_string()
}

/// The fields that the status, complete and note operations leave
/// untouched.
pub open spec fn same_core(a: Todo, b: Todo) -> bool {
    &&& a.id == b.id
    &&& a.uuid == b.uuid
    &&& a.subject == b.subject
    &&& a.projects == b.projects
    &&& a.contexts == b.contexts
    &&& a.due == b.due
    &&& a.archived == b.archived
    &&& a.is_priority == b.is_priority
    &&& a.notes == b.notes
    &&& a.recur == b.recur
    &&& a.recur_until == b.recur_until
    &&& a.prev_recur_todo_uuid == b.prev_recur_todo_uuid
}

/// Creates a todo from a subject line: tags are derived from the
/// subject, the lowest free positive id is assigned, a fresh uuid is
/// drawn, everything else starts clear. Returns the assigned id.
pub fn add(todos: &mut Vec<Todo>, sub: String, due: SerdeDate, recur: Option<String>) -> (id: u64)
    requires
        old(todos)@.len() + 1 <= u64::MAX,
    ensures
        final(todos)@ == old(todos)@.push(final(todos)@.last()),
        ({
            let t = final(todos)@.last();
            &&& t.id == id
            &&& 1 <= id
            &&& !id_taken(old(todos)@, id)
            &&& (forall|k: u64| 1 <= k < id ==> id_taken(old(todos)@, k))
            &&& t.uuid@.len() == 36
            &&& t.subject == sub
            &&& t.projects@.map_values(|w: String| w@) == projects_of(sub@)
            &&& t.contexts@.map_values(|w: String| w@) == contexts_of(sub@)
            &&& t.due == due
            &&& t.completed == false
            &&& !t.completed_date.is_set()
            &&& t.status@ == Seq::<char>::empty()
            &&& t.archived == false
            &&& t.is_priority == false
            &&& t.notes is None
            &&& t.recur@ == (match recur {
                Some(rc) => rc@,
                None => Seq::<char>::empty(),
            })
            &&& t.recur_until@ == Seq::<char>::empty()
            &&& t.prev_recur_todo_uuid@ == Seq::<char>::empty()
        }),
{
    let (ctx, projs) = get_contexts_and_projects(sub.as_str());
    let uuid = new_uuid_string();
    let id = find_new_id(todos);
    let recur_text = match recur {
        Some(rc) => rc,
        None => String::new(),
    };
    let todo_to_add = Todo {
        id,
        uuid,
        subject: sub,
        projects: projs,
        contexts: ctx,
        due,
        completed: false,
        completed_date: SerdeDateTime::new_empty(),
        status: String::new(),
        archived: false,
        is_priority: false,
        notes: None,
        recur: recur_text,
        recur_until: String::new(),
        prev_recur_todo_uuid: String::new(),
    };
    todos.push(todo_to_add);
    id
}

/// Overwrites the subject of the todo with this id; the due date and
/// recurrence are overwritten only when supplied. Tags are not
/// re-derived. Fails with `IdNotFound` and no mutation when the id is
/// absent.
pub fn edit(
    todos: &mut Vec<Todo>,
    id: u64,
    sub: String,
    due: SerdeDate,
    recur: Option<String>,
) -> (r: Result<(), AppError>)
    ensures
        !id_taken(old(todos)@, id) ==> r == Err::<(), AppError>(AppError::IdNotFoundError(id))
            && final(todos)@ == old(todos)@,
        id_taken(old(todos)@, id) ==> ({
            let i = first_index_of(old(todos)@, id);
            let t0 = old(todos)@[i];
            let t = final(todos)@[i];
            &&& r == Ok::<(), AppError>(())
            &&& final(todos)@ == old(todos)@.update(i, t)
            &&& t.subject == sub
            &&& t.due == (if due.date is Some {
                due
            } else {
                t0.due
            })
            &&& t.recur == (match recur {
                Some(rc) => rc,
                None => t0.recur,
            })
            &&& t.id == t0.id
            &&& t.uuid == t0.uuid
            &&& t.projects == t0.projects
            &&& t.contexts == t0.contexts
            &&& t.completed == t0.completed
            &&& t.completed_date == t0.completed_date
            &&& t.status == t0.status
            &&& t.archived == t0.archived
            &&& t.is_priority == t0.is_priority
            &&& t.notes == t0.notes
            &&& t.recur_until == t0.recur_until
            &&& t.prev_recur_todo_uuid == t0.prev_recur_todo_uuid
        }),
{
    let i = match find_todo_index(todos, id) {
        Ok(i) => i,
        Err(e) => { return Err(e) },
    };
    proof {
        lemma_first_match_unique(todos@, id, i as int);
    }
    if due.is_some() {
        todos[i].due = due;
    }
    match recur {
        Some(rc) => {
            todos[i].recur = rc;
        },
        None => {},
    }
    todos[i].subject = sub;
    proof {
        assert(todos@ =~= old(todos)@.update(i as int, todos@[i as int]));
    }
    Ok(())
}

/// Removes the todo with this id; other ids are never renumbered.
/// Fails with `IdNotFound` and no mutation when the id is absent.
pub fn delete(todos: &mut Vec<Todo>, id: u64) -> (r: Result<(), AppError>)
    ensures
        !id_taken(old(todos)@, id) ==> r == Err::<(), AppError>(AppError::IdNotFoundError(id))
            && final(todos)@ == old(todos)@,
        id_taken(old(todos)@, id) ==> r == Ok::<(), AppError>(()) && final(todos)@ == old(
            todos,
        )@.remove(first_index_of(old(todos)@, id)),
        id_taken(old(todos)@, id) ==> final(todos)@.len() + 1 == old(todos)@.len(),
{
    let i = match find_todo_index(todos, id) {
        Ok(i) => i,
        Err(e) => { return Err(e) },
    };
    proof {
        lemma_first_match_unique(todos@, id, i as int);
    }
    todos.remove(i);
    Ok(())
}

/// Sets the status label of the todo with this id verbatim; the empty
/// string clears it. Fails with `IdNotFound` and no mutation when the
/// id is absent.
pub fn status(todos: &mut Vec<Todo>, id: u64, stat: String) -> (r: Result<(), AppError>)
    ensures
        !id_taken(old(todos)@, id) ==> r == Err::<(), AppError>(AppError::IdNotFoundError(id))
            && final(todos)@ == old(todos)@,
        id_taken(old(todos)@, id) ==> ({
            let i = first_index_of(old(todos)@, id);
            let t0 = old(todos)@[i];
            let t = final(todos)@[i];
            &&& r == Ok::<(), AppError>(())
            &&& final(todos)@ == old(todos)@.update(i, t)
            &&& t.status == stat
            &&& t.completed == t0.completed
            &&& t.completed_date == t0.completed_date
            &&& same_core(t, t0)
        }),
{
    let i = match find_todo_index(todos, id) {
        Ok(i) => i,
        Err(e) => { return Err(e) },
    };
    proof {
        lemma_first_match_unique(todos@, id, i as int);
    }
    todos[i].status = stat;
    Ok(())
}

/// Sets or clears completion: setting stamps `completed_date` with the
/// present moment and overwrites the status with the reserved
/// `completed` label; clearing resets both. Completing an
/// already-completed todo re-stamps the date. Fails with `IdNotFound`
/// and no mutation when the id is absent.
pub fn complete(todos: &mut Vec<Todo>, id: u64, set: bool) -> (r: Result<(), AppError>)
    ensures
        !id_taken(old(todos)@, id) ==> r == Err::<(), AppError>(AppError::IdNotFoundError(id))
            && final(todos)@ == old(todos)@,
        id_taken(old(todos)@, id) ==> ({
            let i = first_index_of(old(todos)@, id);
            let t0 = old(todos)@[i];
            let t = final(todos)@[i];
            &&& r == Ok::<(), AppError>(())
            &&& final(todos)@ == old(todos)@.update(i, t)
            &&& t.completed == set
            &&& t.completed_date.is_set() == set
            &&& (set ==> t.completed_date.stamp_nonempty())
            &&& (set ==> t.status@ == "completed"@)
            &&& (!set ==> t.status@ == Seq::<char>::empty())
            &&& same_core(t, t0)
        }),
{
    let i = match find_todo_index(todos, id) {
        Ok(i) => i,
        Err(e) => { return Err(e) },
    };
    proof {
        lemma_first_match_unique(todos@, id, i as int);
    }
    if set {
        todos[i].status = String::from_str("completed");
        todos[i].completed_date = SerdeDateTime::now();
    } else {
        todos[i].status = String::new();
        todos[i].completed_date = SerdeDateTime::new_empty();
    }
    todos[i].completed = set;
    proof {
        assert(todos@ =~= old(todos)@.update(i as int, todos@[i as int]));
    }
    Ok(())
}

/// Sets or clears the display-priority flag. Fails with `IdNotFound`
/// and no mutation when the id is absent.
pub fn prioritize(todos: &mut Vec<Todo>, id: u64, set: bool) -> (r: Result<(), AppError>)
    ensures
        !id_taken(old(todos)@, id) ==> r == Err::<(), AppError>(AppError::IdNotFoundError(id))
            && final(todos)@ == old(todos)@,
        id_taken(old(todos)@, id) ==> ({
            let i = first_index_of(old(todos)@, id);
            let t0 = old(todos)@[i];
            let t = final(todos)@[i];
            &&& r == Ok::<(), AppError>(())
            &&& final(todos)@ == old(todos)@.update(i, t)
            &&& t.is_priority == set
            &&& t == (Todo { is_priority: set, ..t0 })
        }),
{
    let i = match find_todo_index(todos, id) {
        Ok(i) => i,
        Err(e) => { return Err(e) },
    };
    proof {
        lemma_first_match_unique(todos@, id, i as int);
    }
    todos[i].is_priority = set;
    Ok(())
}

/// A store whose live todos carry pairwise-distinct ids.
pub open spec fn unique_ids(todos: Seq<Todo>) -> bool {
    forall|a: int, b: int| 0 <= a < b < todos.len() ==> todos[a].id != todos[b].id
}

/// After a todo with a fresh id is appended — as `add` appends one —
/// lookup by that id finds exactly the appended todo, so the tags and
/// fields recorded at creation are what a subsequent `find` hands
/// back.
pub proof fn lemma_add_then_find(todos: Seq<Todo>, t: Todo)
    requires
        !id_taken(todos, t.id),
    ensures
        id_taken(todos.push(t), t.id),
        first_index_of(todos.push(t), t.id) == todos.len(),
        todos.push(t)[first_index_of(todos.push(t), t.id)] == t,
{
    let after = todos.push(t);
    assert(after[todos.len() as int] == t);
    assert forall|j: int| 0 <= j < todos.len() implies after[j].id != t.id by {
        assert(after[j] == todos[j]);
    }
    assert(is_first_match(after, t.id, todos.len() as int));
    lemma_first_match_unique(after, t.id, todos.len() as int);
}

/// Id allocation is a function of the store alone: the three clauses
/// of the allocation contract admit a single id, and on an empty store
/// that id is 1.
pub proof fn lemma_alloc_deterministic(todos: Seq<Todo>, r1: u64, r2: u64)
    requires
        1 <= r1,
        !id_taken(todos, r1),
        forall|k: u64| 1 <= k < r1 ==> id_taken(todos, k),
        1 <= r2,
        !id_taken(todos, r2),
        forall|k: u64| 1 <= k < r2 ==> id_taken(todos, k),
    ensures
        r1 == r2,
        todos.len() == 0 ==> r1 == 1,
{
    if r1 < r2 {
        assert(id_taken(todos, r1));
    }
    if r2 < r1 {
        assert(id_taken(todos, r2));
    }
    if todos.len() == 0 && r1 > 1 {
        assert(id_taken(todos, 1));
    }
}

/// Deleting an id from a store with unique ids removes its only
/// carrier: the store shrinks by exactly one and a lookup of that id
/// then fails.
pub proof fn lemma_delete_then_find(todos: Seq<Todo>, id: u64)
    requires
        id_taken(todos, id),
        unique_ids(todos),
    ensures
        ({
            let after = todos.remove(first_index_of(todos, id));
            &&& after.len() + 1 == todos.len()
            &&& !id_taken(after, id)
        }),
{
    lemma_first_match_exists(todos, id);
    let i = first_index_of(todos, id);
    let after = todos.remove(i);
    assert forall|j: int| 0 <= j < after.len() implies after[j].id != id by {
        if j < i {
            assert(after[j] == todos[j]);
        } else {
            assert(after[j] == todos[j + 1]);
        }
    }
}

} // verus!
