use vstd::prelude::*;

use crate::datetime::{format_dt, spec_dt_leq, spec_format_dt, spec_parse_dt, DateTime};
use crate::db::{Db, SpecDb, SpecTaskRow, StoreError, TaskRow};
use crate::strutil::{
    join_commas, push_u32_chars, spec_comma_free, spec_join_commas, spec_u32_chars,
    split_commas, string_from_chars,
};

verus! {

/// A task as one command works with it: the row fields together with the
/// names of the tags associated to it, in association order.
pub struct Task {
    pub id: u32,
    pub name: String,
    pub finished: Option<DateTime>,
    pub due: DateTime,
    pub tags: Vec<String>,
}

/// The mathematical image of a task with its tags.
pub struct SpecTask {
    pub id: u32,
    pub name: Seq<char>,
    pub finished: Option<DateTime>,
    pub due: DateTime,
    pub tags: Seq<Seq<char>>,
}

impl View for Task {
    type V = SpecTask;

    open spec fn view(&self) -> SpecTask {
        SpecTask {
            id: self.id,
            name: self.name@,
            finished: self.finished,
            due: self.due,
            tags: self.tags.deep_view(),
        }
    }
}

/// The views of a sequence of tasks.
pub open spec fn spec_task_views(s: Seq<Task>) -> Seq<SpecTask> {
    s.map_values(|t: Task| t@)
}

/// The tag names gathered for `task_id` from the first `n` association rows:
/// for each row naming the task, the name of the tag row its tag id points
/// at, skipping ids that no tag row has (as the left join drops them).
pub open spec fn spec_tags_of_upto(db: SpecDb, task_id: u32, n: int) -> Seq<Seq<char>>
    decreases n,
{
    if n <= 0 {
        Seq::empty()
    } else {
        let prev = spec_tags_of_upto(db, task_id, n - 1);
        let tr = db.tagged[n - 1];
        if tr.task_id == task_id && 1 <= tr.tag_id <= db.tags.len() {
            prev.push(db.tags[tr.tag_id - 1].name)
        } else {
            prev
        }
    }
}

/// All tag names associated to `task_id`, in association order.
pub open spec fn spec_tags_of(db: SpecDb, task_id: u32) -> Seq<Seq<char>> {
    spec_tags_of_upto(db, task_id, db.tagged.len() as int)
}

/// The task at row index `i`, joined with its tags.
pub open spec fn spec_task_at(db: SpecDb, i: int) -> SpecTask {
    SpecTask {
        id: db.tasks[i].id,
        name: db.tasks[i].name,
        finished: db.tasks[i].finished,
        due: db.tasks[i].due,
        tags: spec_tags_of(db, db.tasks[i].id),
    }
}

/// Every task joined with its tags, in row order.
pub open spec fn spec_joined(db: SpecDb) -> Seq<SpecTask> {
    Seq::new(db.tasks.len(), |i: int| spec_task_at(db, i))
}

/// The task with the given id joined with its tags, or `None` when no row
/// has that id. Ids are row positions shifted by one (`SpecDb::wf`).
pub open spec fn spec_fetch_task(db: SpecDb, id: u32) -> Option<SpecTask> {
    if 1 <= id && id <= db.tasks.len() {
        Some(spec_task_at(db, id - 1))
    } else {
        None
    }
}

/// Builds the joined image of the task at row index `i`.
fn task_at(db: &Db, i: usize) -> (t: Task)
    requires
        i < db@.tasks.len(),
    ensures
        t@ == spec_task_at(db@, i as int),
{
    let row_id = db.tasks[i].id;
    let mut tags: Vec<String> = Vec::new();
    let mut j: usize = 0;
    while j < db.tagged.len()
        invariant
            j <= db.tagged.len(),
            i < db@.tasks.len(),
            row_id == db@.tasks[i as int].id,
            tags.deep_view() == spec_tags_of_upto(db@, row_id, j as int),
        decreases db.tagged.len() - j,
    {
        let tr = db.tagged[j];
        let ghost tags0 = tags.deep_view();
        if tr.task_id == row_id && 1 <= tr.tag_id && (tr.tag_id as usize) <= db.tags.len() {
            tags.push(db.tags[(tr.tag_id - 1) as usize].name.clone());
            proof {
                assert(tags.deep_view() =~= tags0.push(
                    db@.tags[tr.tag_id - 1].name,
                ));
            }
        }
        j = j + 1;
    }
    let t = Task {
        id: row_id,
        name: db.tasks[i].name.clone(),
        finished: db.tasks[i].finished,
        due: db.tasks[i].due,
        tags,
    };
    t
}

/// The result of inserting a task row: it is appended with the next id and
/// no finished timestamp.
pub open spec fn spec_create_task(db: SpecDb, name: Seq<char>, due: DateTime) -> (SpecDb, u32) {
    let id = (db.tasks.len() + 1) as u32;
    (
        SpecDb {
            initialized: db.initialized,
            tasks: db.tasks.push(SpecTaskRow { id, name, due, finished: None }),
            tags: db.tags,
            tagged: db.tagged,
        },
        id,
    )
}

/// Inserts a row into `tasks` with the name and due date and returns the
/// assigned id. The new task is unfinished and has no tags.
pub fn create_task(db: &mut Db, name: &str, due: DateTime) -> (r: Result<u32, StoreError>)
    requires
        old(db)@.wf(),
        old(db)@.tasks.len() < u32::MAX,
        due.valid(),
    ensures
        final(db)@.wf(),
        !old(db)@.initialized ==> r == Result::<u32, StoreError>::Err(StoreError::MissingTables)
            && final(db)@ == old(db)@,
        old(db)@.initialized ==> r == Result::<u32, StoreError>::Ok(
            spec_create_task(old(db)@, name@, due).1,
        ) && final(db)@ == spec_create_task(old(db)@, name@, due).0,
{
    if !db.initialized {
        proof {
            assert(db@ =~= old(db)@);
        }
        return Err(StoreError::MissingTables);
    }
    let id = db.tasks.len() as u32 + 1;
    db.tasks.push(TaskRow { id, name: name.to_owned(), due, finished: None });
    proof {
        assert(db@.tasks =~= old(db)@.tasks.push(
            SpecTaskRow { id, name: name@, due, finished: None },
        ));
        assert(final(db)@ =~= spec_create_task(old(db)@, name@, due).0);
        assert forall|k: int| 0 <= k < db@.tasks.len() implies (#[trigger] db@.tasks[k]).id == k
            + 1 && db@.tasks[k].due.valid() && (db@.tasks[k].finished is Some
            ==> db@.tasks[k].finished->0.valid()) by {
            if k < old(db)@.tasks.len() {
                assert(db@.tasks[k] == old(db)@.tasks[k]);
            }
        };
    }
    Ok(id)
}

/// The task row after an update that finishes the task with the given id.
pub open spec fn spec_finish_row(r: SpecTaskRow, id: u32, now: DateTime) -> SpecTaskRow {
    if r.id == id {
        SpecTaskRow { id: r.id, name: r.name, due: r.due, finished: Some(now) }
    } else {
        r
    }
}

/// The result of the update: every row with the id (there is at most one)
/// gets `now` as its finished timestamp; all other rows stay.
pub open spec fn spec_finish_task(db: SpecDb, id: u32, now: DateTime) -> SpecDb {
    SpecDb {
        initialized: db.initialized,
        tasks: Seq::new(db.tasks.len(), |i: int| spec_finish_row(db.tasks[i], id, now)),
        tags: db.tags,
        tagged: db.tagged,
    }
}

/// Sets the finished timestamp of the task with the given id to `now`.
/// When no row has the id, the update matches no row and nothing changes;
/// that is not reported as an error.
pub fn finish_task(db: &mut Db, id: u32, now: DateTime) -> (r: Result<(), StoreError>)
    requires
        old(db)@.wf(),
        now.valid(),
    ensures
        final(db)@.wf(),
        !old(db)@.initialized ==> r == Result::<(), StoreError>::Err(StoreError::MissingTables)
            && final(db)@ == old(db)@,
        old(db)@.initialized ==> r == Result::<(), StoreError>::Ok(())
            && final(db)@ == spec_finish_task(old(db)@, id, now),
{
    if !db.initialized {
        proof {
            assert(db@ =~= old(db)@);
        }
        return Err(StoreError::MissingTables);
    }
    let mut updated: Vec<TaskRow> = Vec::new();
    let mut j: usize = 0;
    while j < db.tasks.len()
        invariant
            j <= db.tasks.len(),
            db@ == old(db)@,
            updated@.map_values(|r: TaskRow| r@) =~= Seq::new(
                j as nat,
                |i: int| spec_finish_row(old(db)@.tasks[i], id, now),
            ),
        decreases db.tasks.len() - j,
    {
        let ghost up0 = updated@.map_values(|r: TaskRow| r@);
        let row = &db.tasks[j];
        if row.id == id {
            updated.push(TaskRow {
                id: row.id,
                name: row.name.clone(),
                due: row.due,
                finished: Some(now),
            });
        } else {
            updated.push(TaskRow {
                id: row.id,
                name: row.name.clone(),
                due: row.due,
                finished: row.finished,
            });
        }
        proof {
            assert(updated@.map_values(|r: TaskRow| r@) =~= up0.push(
                spec_finish_row(old(db)@.tasks[j as int], id, now),
            ));
        }
        j = j + 1;
    }
    db.tasks = updated;
    proof {
        assert(final(db)@ =~= spec_finish_task(old(db)@, id, now));
        assert forall|k: int| 0 <= k < db@.tasks.len() implies (#[trigger] db@.tasks[k]).id == k
            + 1 && db@.tasks[k].due.valid() && (db@.tasks[k].finished is Some
            ==> db@.tasks[k].finished->0.valid()) by {
            assert(db@.tasks[k] == spec_finish_row(old(db)@.tasks[k], id, now));
            assert(old(db)@.tasks[k].due.valid());
        };
    }
    Ok(())
}

/// Fetches the task with the given id, joined with its tags, or `None`
/// when no task row has that id.
pub fn fetch_task_with_id(db: &Db, id: u32) -> (r: Result<Option<Task>, StoreError>)
    requires
        db@.wf(),
    ensures
        !db@.initialized ==> r == Result::<Option<Task>, StoreError>::Err(
            StoreError::MissingTables,
        ),
        db@.initialized ==> match r {
            Ok(Some(t)) => spec_fetch_task(db@, id) == Some(t@),
            Ok(None) => spec_fetch_task(db@, id) is None,
            Err(_) => false,
        },
{
    if !db.initialized {
        return Err(StoreError::MissingTables);
    }
    if id >= 1 && (id as usize) <= db.tasks.len() {
        let t = task_at(db, (id - 1) as usize);
        Ok(Some(t))
    } else {
        Ok(None)
    }
}

/// The stable insertion of a task into a due-ordered sequence: it goes
/// after every task that is due no later.
pub open spec fn spec_insert_by_due(x: SpecTask, s: Seq<SpecTask>) -> Seq<SpecTask>
    decreases s.len(),
{
    if s.len() == 0 {
        seq![x]
    } else if spec_dt_leq(s[0].due, x.due) {
        seq![s[0]] + spec_insert_by_due(x, s.drop_first())
    } else {
        seq![x] + s
    }
}

/// The stable sort of tasks by ascending due date.
pub open spec fn spec_sort_by_due(s: Seq<SpecTask>) -> Seq<SpecTask>
    decreases s.len(),
{
    if s.len() == 0 {
        Seq::empty()
    } else {
        spec_insert_by_due(s.last(), spec_sort_by_due(s.drop_last()))
    }
}

/// Ascending by due date.
pub open spec fn spec_due_ordered(s: Seq<SpecTask>) -> bool {
    forall|i: int, j: int|
        0 <= i < j < s.len() ==> spec_dt_leq(#[trigger] s[i].due, #[trigger] s[j].due)
}

/// Where the first `j` elements are due no later than `x`, the insertion
/// point of `x` is `j` exactly when `j` is the end or the element there is
/// due strictly later.
proof fn lemma_insert_by_due_split(x: SpecTask, s: Seq<SpecTask>, j: int)
    requires
        0 <= j <= s.len(),
        forall|k: int| 0 <= k < j ==> spec_dt_leq((#[trigger] s[k]).due, x.due),
        j < s.len() ==> !spec_dt_leq(s[j].due, x.due),
    ensures
        spec_insert_by_due(x, s) == s.take(j) + seq![x] + s.skip(j),
    decreases j,
{
    if j == 0 {
        if s.len() == 0 {
            assert(spec_insert_by_due(x, s) =~= s.take(0) + seq![x] + s.skip(0));
        } else {
            assert(spec_insert_by_due(x, s) =~= s.take(0) + seq![x] + s.skip(0));
        }
    } else {
        assert(spec_dt_leq(s[0].due, x.due));
        let s1 = s.drop_first();
        assert(forall|k: int| 0 <= k < j - 1 ==> spec_dt_leq((#[trigger] s1[k]).due, x.due));
        lemma_insert_by_due_split(x, s1, j - 1);
        assert(seq![s[0]] + s1.take(j - 1) =~= s.take(j));
        assert(s1.skip(j - 1) =~= s.skip(j));
        assert(spec_insert_by_due(x, s) =~= s.take(j) + seq![x] + s.skip(j));
    }
}

/// Inserts the task before the first task due strictly later.
fn insert_by_due(out: &mut Vec<Task>, x: Task)
    ensures
        spec_task_views(final(out)@) == spec_insert_by_due(x@, spec_task_views(old(out)@)),
{
    let ghost views0 = spec_task_views(out@);
    let mut j: usize = 0;
    while j < out.len() && crate::datetime::dt_leq(&out[j].due, &x.due)
        invariant
            j <= out.len(),
            out@ == old(out)@,
            views0 == spec_task_views(out@),
            forall|k: int| 0 <= k < j ==> spec_dt_leq((#[trigger] views0[k]).due, x@.due),
        decreases out.len() - j,
    {
        proof {
            assert(views0[j as int].due == out@[j as int]@.due);
        }
        j = j + 1;
    }
    proof {
        if j < out.len() {
            assert(views0[j as int].due == out@[j as int]@.due);
        }
    }
    out.insert(j, x);
    proof {
        lemma_insert_by_due_split(x@, views0, j as int);
        assert(spec_task_views(out@) =~= views0.take(j as int) + seq![x@] + views0.skip(
            j as int,
        ));
    }
}

/// Fetches every task, each joined with its tags, ordered by ascending due
/// date (the order among equal due dates is the row order).
pub fn fetch_tasks(db: &Db) -> (r: Result<Vec<Task>, StoreError>)
    requires
        db@.wf(),
    ensures
        !db@.initialized ==> r == Result::<Vec<Task>, StoreError>::Err(StoreError::MissingTables),
        db@.initialized ==> match r {
            Ok(v) => spec_task_views(v@) == spec_sort_by_due(spec_joined(db@)),
            Err(_) => false,
        },
{
    if !db.initialized {
        return Err(StoreError::MissingTables);
    }
    let mut out: Vec<Task> = Vec::new();
    let mut i: usize = 0;
    while i < db.tasks.len()
        invariant
            i <= db@.tasks.len(),
            db@.tasks.len() == db.tasks.len(),
            spec_task_views(out@) == spec_sort_by_due(spec_joined(db@).take(i as int)),
        decreases db.tasks.len() - i,
    {
        let t = task_at(db, i);
        insert_by_due(&mut out, t);
        proof {
            let joined = spec_joined(db@);
            assert(joined.take(i + 1).drop_last() =~= joined.take(i as int));
            assert(joined.take(i + 1).last() == joined[i as int]);
            assert(joined[i as int] == spec_task_at(db@, i as int));
        }
        i = i + 1;
    }
    proof {
        assert(spec_joined(db@).take(db@.tasks.len() as int) =~= spec_joined(db@));
    }
    Ok(out)
}

/// Inserting adds exactly the one task to what the sequence holds.
proof fn lemma_insert_by_due_multiset(x: SpecTask, s: Seq<SpecTask>)
    ensures
        spec_insert_by_due(x, s).to_multiset() == s.to_multiset().insert(x),
    decreases s.len(),
{
    broadcast use vstd::seq_lib::group_to_multiset_ensures;

    if s.len() == 0 {
        assert(seq![x] =~= Seq::<SpecTask>::empty().push(x));
        assert(spec_insert_by_due(x, s).to_multiset() =~= s.to_multiset().insert(x));
    } else if spec_dt_leq(s[0].due, x.due) {
        lemma_insert_by_due_multiset(x, s.drop_first());
        vstd::seq_lib::lemma_multiset_commutative(seq![s[0]], spec_insert_by_due(x, s.drop_first()));
        assert(s =~= seq![s[0]] + s.drop_first());
        vstd::seq_lib::lemma_multiset_commutative(seq![s[0]], s.drop_first());
        assert(spec_insert_by_due(x, s).to_multiset() =~= s.to_multiset().insert(x));
    } else {
        assert(seq![x] + s =~= (seq![x] + s.drop_last()).push(s.last()));
        lemma_seq_cons_multiset(x, s);
        assert(spec_insert_by_due(x, s).to_multiset() =~= s.to_multiset().insert(x));
    }
}

/// Prepending one element adds it to what the sequence holds.
proof fn lemma_seq_cons_multiset(x: SpecTask, s: Seq<SpecTask>)
    ensures
        (seq![x] + s).to_multiset() == s.to_multiset().insert(x),
    decreases s.len(),
{
    broadcast use vstd::seq_lib::group_to_multiset_ensures;

    if s.len() == 0 {
        assert(seq![x] + s =~= Seq::<SpecTask>::empty().push(x));
        assert((seq![x] + s).to_multiset() =~= s.to_multiset().insert(x));
    } else {
        lemma_seq_cons_multiset(x, s.drop_last());
        assert(seq![x] + s =~= (seq![x] + s.drop_last()).push(s.last()));
        assert(s =~= s.drop_last().push(s.last()));
        assert((seq![x] + s).to_multiset() =~= s.to_multiset().insert(x));
    }
}

/// The list holds exactly the joined tasks: sorting loses none and adds
/// none, each task of the database appearing exactly as often as it is
/// a row (so, with distinct row ids, exactly once).
pub proof fn lemma_sort_by_due_multiset(s: Seq<SpecTask>)
    ensures
        spec_sort_by_due(s).to_multiset() == s.to_multiset(),
    decreases s.len(),
{
    broadcast use vstd::seq_lib::group_to_multiset_ensures;

    if s.len() > 0 {
        lemma_sort_by_due_multiset(s.drop_last());
        lemma_insert_by_due_multiset(s.last(), spec_sort_by_due(s.drop_last()));
        assert(s =~= s.drop_last().push(s.last()));
        assert(spec_sort_by_due(s).to_multiset() =~= s.to_multiset());
    }
}

/// Inserting into a due-ordered sequence keeps it due-ordered.
proof fn lemma_insert_by_due_ordered(x: SpecTask, s: Seq<SpecTask>)
    requires
        spec_due_ordered(s),
    ensures
        spec_due_ordered(spec_insert_by_due(x, s)),
    decreases s.len(),
{
    broadcast use vstd::seq_lib::group_to_multiset_ensures;

    if s.len() == 0 {
    } else if spec_dt_leq(s[0].due, x.due) {
        let s1 = s.drop_first();
        assert(spec_due_ordered(s1));
        lemma_insert_by_due_ordered(x, s1);
        let rest = spec_insert_by_due(x, s1);
        lemma_insert_by_due_multiset(x, s1);
        let r = seq![s[0]] + rest;
        assert forall|i: int, j: int| 0 <= i < j < r.len() implies spec_dt_leq(
            (#[trigger] r[i]).due,
            (#[trigger] r[j]).due,
        ) by {
            if i == 0 {
                assert(rest.to_multiset().contains(rest[j - 1]));
                if rest[j - 1] == x {
                } else {
                    assert(s1.to_multiset().contains(rest[j - 1]));
                    let w = choose|w: int| 0 <= w < s1.len() && s1[w] == rest[j - 1];
                    assert(spec_dt_leq(s[0].due, s1[w].due));
                }
            } else {
                assert(spec_dt_leq(rest[i - 1].due, rest[j - 1].due));
            }
        };
    } else {
        crate::datetime::lemma_dt_leq_total(s[0].due, x.due);
        let r = seq![x] + s;
        assert forall|i: int, j: int| 0 <= i < j < r.len() implies spec_dt_leq(
            (#[trigger] r[i]).due,
            (#[trigger] r[j]).due,
        ) by {
            if i == 0 {
                if j == 1 {
                } else {
                    assert(spec_dt_leq(s[0].due, s[j - 1].due));
                }
            } else {
                assert(spec_dt_leq(s[i - 1].due, s[j - 1].due));
            }
        };
    }
}

/// The list is in ascending due order.
pub proof fn lemma_sort_by_due_ordered(s: Seq<SpecTask>)
    ensures
        spec_due_ordered(spec_sort_by_due(s)),
    decreases s.len(),
{
    if s.len() > 0 {
        lemma_sort_by_due_ordered(s.drop_last());
        lemma_insert_by_due_ordered(s.last(), spec_sort_by_due(s.drop_last()));
    }
}

/// Rebuilds a task from the column values of one row of the list query:
/// the id, the name, the stored due and finished texts, and the tag names
/// concatenated with commas (empty when the task has no tags).
///
/// The due text must be in the storage format; the finished column becomes
/// `None` unless it parses. An empty tag text means no tags at all, never
/// one empty tag name.
pub fn task_from_row(id: u32, name: &str, due: &str, finished: &str, tags: &str) -> (r: Option<
    Task,
>)
    ensures
        match r {
            Some(t) => {
                &&& spec_parse_dt(due@, ' ') == Some(t@.due)
                &&& t@.id == id
                &&& t@.name == name@
                &&& t@.finished == spec_parse_dt(finished@, ' ')
                &&& if tags@.len() == 0 {
                    t@.tags == Seq::<Seq<char>>::empty()
                } else {
                    &&& t@.tags.len() >= 1
                    &&& spec_join_commas(t@.tags) == tags@
                    &&& spec_comma_free(t@.tags)
                }
            },
            None => spec_parse_dt(due@, ' ') is None,
        },
{
    let due_dt = match crate::datetime::parse_dt(due, ' ') {
        Some(dt) => dt,
        None => { return None; },
    };
    let finished_dt = crate::datetime::parse_dt(finished, ' ');
    let tag_list: Vec<String> = if tags.unicode_len() == 0 {
        Vec::new()
    } else {
        split_commas(tags)
    };
    proof {
        if tags@.len() == 0 {
            assert(tag_list.deep_view() =~= Seq::<Seq<char>>::empty());
        }
    }
    Some(Task { id, name: name.to_owned(), finished: finished_dt, due: due_dt, tags: tag_list })
}

/// The single-line text of a task:
/// `Task <id>: <name> (due: <due>, finished: <finished-or-empty>, tags: <comma-joined>)`.
pub open spec fn spec_render_line(t: SpecTask) -> Seq<char> {
    "Task "@ + spec_u32_chars(t.id) + ": "@ + t.name + " (due: "@ + spec_format_dt(t.due, ' ')
        + ", finished: "@ + (match t.finished {
        Some(f) => spec_format_dt(f, ' '),
        None => Seq::empty(),
    }) + ", tags: "@ + spec_join_commas(t.tags) + ")"@
}

/// Renders a task on one line, with the due and finished timestamps in the
/// storage format and the tags comma-joined.
pub fn render_line(t: &Task) -> (r: String)
    requires
        t@.due.valid(),
        t@.finished is Some ==> t@.finished->0.valid(),
    ensures
        r@ == spec_render_line(t@),
{
    let mut s: String = "Task ".to_owned();
    let mut idv: Vec<char> = Vec::new();
    push_u32_chars(t.id, &mut idv);
    s.append(string_from_chars(&idv).as_str());
    s.append(": ");
    s.append(t.name.as_str());
    s.append(" (due: ");
    s.append(format_dt(&t.due, ' ').as_str());
    s.append(", finished: ");
    match &t.finished {
        Some(f) => {
            s.append(format_dt(f, ' ').as_str());
        },
        None => {},
    }
    s.append(", tags: ");
    s.append(join_commas(&t.tags).as_str());
    s.append(")");
    proof {
        assert(s@ =~= spec_render_line(t@));
    }
    s
}

/// The five table cells of one task row: the id in decimal, the name, the
/// due and finished timestamps in the storage format (finished empty while
/// the task is open), and the tags comma-joined.
pub open spec fn spec_task_cells(t: SpecTask) -> Seq<Seq<char>> {
    seq![
        spec_u32_chars(t.id),
        t.name,
        spec_format_dt(t.due, ' '),
        (match t.finished {
            Some(f) => spec_format_dt(f, ' '),
            None => Seq::empty(),
        }),
        spec_join_commas(t.tags),
    ]
}

/// The cells of every task, in task order.
pub open spec fn spec_table_cells(s: Seq<SpecTask>) -> Seq<Seq<Seq<char>>> {
    s.map_values(|t: SpecTask| spec_task_cells(t))
}

/// The table header, in column order.
pub open spec fn spec_table_header() -> Seq<Seq<char>> {
    seq!["ID"@, "Name"@, "Due"@, "Finished"@, "Tags"@]
}

fn task_cells(t: &Task) -> (r: Vec<String>)
    requires
        t@.due.valid(),
        t@.finished is Some ==> t@.finished->0.valid(),
    ensures
        r.deep_view() == spec_task_cells(t@),
{
    let mut idv: Vec<char> = Vec::new();
    push_u32_chars(t.id, &mut idv);
    let mut r: Vec<String> = Vec::new();
    r.push(string_from_chars(&idv));
    r.push(t.name.clone());
    r.push(format_dt(&t.due, ' '));
    match &t.finished {
        Some(f) => {
            r.push(format_dt(f, ' '));
        },
        None => {
            r.push(String::new());
        },
    }
    r.push(join_commas(&t.tags));
    proof {
        assert(r.deep_view() =~= spec_task_cells(t@));
    }
    r
}

/// The text that the table-rendering crate lays out for these cells; it
/// depends on the cells alone (see [`comfy_render`]).
pub uninterp spec fn rendered_table(header: Seq<Seq<char>>, rows: Seq<Seq<Seq<char>>>) -> Seq<
    char,
>;

/// Relies on `comfy_table::Table` — `new`, `load_preset`,
/// `set_content_arrangement`, `set_width`, `set_header`, `add_rows` and its
/// `Display` impl — to lay the cells out as a bordered table with the
/// `UTF8_BORDERS_ONLY` preset, dynamic column arrangement and width 120.
/// Every table this crate builds is configured exactly so, and with that
/// fixed configuration the layout reads nothing besides the header and row
/// cells: the text is a function of them alone.
#[verifier::external_body]
fn comfy_render(header: Vec<String>, rows: Vec<Vec<String>>) -> (r: String)
    ensures
        r@ == rendered_table(header.deep_view(), rows.deep_view()),
{
    let mut t = comfy_table::Table::new();
    t.load_preset(comfy_table::presets::UTF8_BORDERS_ONLY)
        .set_content_arrangement(comfy_table::ContentArrangement::Dynamic)
        .set_width(120)
        .set_header(header)
        .add_rows(rows);
    t.to_string()
}

/// Renders the task table: the columns `ID`, `Name`, `Due`, `Finished`,
/// `Tags`, one row of cells per task in the given order.
pub fn render_task_table(tasks: &Vec<Task>) -> (r: String)
    requires
        forall|i: int| 0 <= i < tasks@.len() ==> (#[trigger] tasks@[i])@.due.valid(),
        forall|i: int|
            0 <= i < tasks@.len() ==> (#[trigger] tasks@[i])@.finished is Some
                ==> tasks@[i]@.finished->0.valid(),
    ensures
        r@ == rendered_table(spec_table_header(), spec_table_cells(spec_task_views(tasks@))),
{
    let mut header: Vec<String> = Vec::new();
    header.push("ID".to_owned());
    header.push("Name".to_owned());
    header.push("Due".to_owned());
    header.push("Finished".to_owned());
    header.push("Tags".to_owned());
    proof {
        assert(header.deep_view() =~= spec_table_header());
    }
    let mut rows: Vec<Vec<String>> = Vec::new();
    let mut i: usize = 0;
    while i < tasks.len()
        invariant
            i <= tasks@.len(),
            forall|k: int| 0 <= k < tasks@.len() ==> (#[trigger] tasks@[k])@.due.valid(),
            forall|k: int|
                0 <= k < tasks@.len() ==> (#[trigger] tasks@[k])@.finished is Some
                    ==> tasks@[k]@.finished->0.valid(),
            rows.deep_view() == spec_table_cells(spec_task_views(tasks@.take(i as int))),
        decreases tasks.len() - i,
    {
        let ghost rows0 = rows.deep_view();
        let cells = task_cells(&tasks[i]);
        rows.push(cells);
        proof {
            assert(rows.deep_view() =~= rows0.push(spec_task_cells(tasks@[i as int]@)));
            assert(spec_task_views(tasks@.take(i + 1)) =~= spec_task_views(
                tasks@.take(i as int),
            ).push(tasks@[i as int]@));
            assert(spec_table_cells(spec_task_views(tasks@.take(i + 1))) =~= spec_table_cells(
                spec_task_views(tasks@.take(i as int)),
            ).push(spec_task_cells(tasks@[i as int]@)));
        }
        i = i + 1;
    }
    proof {
        assert(tasks@.take(tasks@.len() as int) =~= tasks@);
    }
    comfy_render(header, rows)
}

} // verus!
