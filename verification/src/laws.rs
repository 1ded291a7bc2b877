use vstd::prelude::*;

use crate::datetime::{lemma_format_parse, lemma_parse_format, spec_format_dt, spec_parse_dt,
    DateTime};
use crate::db::{spec_fresh_db, spec_init_schema, SpecDb, SpecTagRow};
use crate::runner::{spec_apply, spec_apply_tag};
use crate::cli::SpecCommands;
use crate::tag::{spec_create_tag, spec_find_tag, spec_tag_task};
use crate::task::{
    lemma_sort_by_due_multiset, spec_create_task, spec_fetch_task, spec_joined, spec_sort_by_due,
    spec_tags_of, spec_tags_of_upto, spec_task_at, SpecTask,
};

verus! {

/// `init` on a fresh database file succeeds, and an `add` against the
/// initialized database then succeeds as well, storing one task row.
pub proof fn lemma_init_then_add(name: Seq<char>, due: DateTime, now: DateTime)
    ensures
        ({
            let (db1, o1) = spec_apply(spec_fresh_db(), SpecCommands::Init, now);
            let (db2, o2) = spec_apply(db1, SpecCommands::Add { name, due }, now);
            &&& o1.exit_code == 0
            &&& o2.exit_code == 0
            &&& db2.tasks.len() == 1
        }),
{
}

/// No association row names the task: its tag list is empty, not a list
/// holding one empty name.
pub proof fn lemma_untagged_task_has_no_tags(db: SpecDb, task_id: u32)
    requires
        forall|k: int| 0 <= k < db.tagged.len() ==> (#[trigger] db.tagged[k]).task_id != task_id,
    ensures
        spec_tags_of(db, task_id) == Seq::<Seq<char>>::empty(),
{
    lemma_tags_of_upto_absent(db, task_id, db.tagged.len() as int);
}

proof fn lemma_tags_of_upto_absent(db: SpecDb, task_id: u32, n: int)
    requires
        n <= db.tagged.len(),
        forall|k: int| 0 <= k < db.tagged.len() ==> (#[trigger] db.tagged[k]).task_id != task_id,
    ensures
        spec_tags_of_upto(db, task_id, n) == Seq::<Seq<char>>::empty(),
    decreases n,
{
    if n > 0 {
        lemma_tags_of_upto_absent(db, task_id, n - 1);
    }
}

/// A task just created fetches back equal in name and due date to what was
/// given, with no finished timestamp and no tags.
pub proof fn lemma_created_task_fetches_back(db: SpecDb, name: Seq<char>, due: DateTime)
    requires
        db.wf(),
        db.links_closed(),
        db.tasks.len() < u32::MAX,
    ensures
        ({
            let (db2, id) = spec_create_task(db, name, due);
            spec_fetch_task(db2, id) == Some(
                SpecTask { id, name, finished: None, due, tags: Seq::<Seq<char>>::empty() },
            )
        }),
{
    let (db2, id) = spec_create_task(db, name, due);
    assert(db2.tasks[id - 1].id == id);
    assert(forall|k: int|
        0 <= k < db2.tagged.len() ==> (#[trigger] db2.tagged[k]).task_id != id);
    lemma_untagged_task_has_no_tags(db2, id);
    assert(spec_task_at(db2, id - 1) == SpecTask {
        id,
        name,
        finished: None,
        due,
        tags: Seq::<Seq<char>>::empty(),
    });
}

/// The prefix of the association scan reads only the rows and tag names
/// that both databases share.
proof fn lemma_tags_of_upto_frame(a: SpecDb, b: SpecDb, task_id: u32, n: int)
    requires
        0 <= n <= a.tagged.len(),
        n <= b.tagged.len(),
        forall|k: int| 0 <= k < n ==> a.tagged[k] == b.tagged[k],
        forall|k: int|
            0 <= k < n ==> 1 <= (#[trigger] a.tagged[k]).tag_id <= a.tags.len() ==> a.tags[
                a.tagged[k].tag_id - 1
            ] == b.tags[a.tagged[k].tag_id - 1],
        forall|k: int|
            0 <= k < n ==> ((1 <= (#[trigger] a.tagged[k]).tag_id <= a.tags.len()) <==> (1 <= a.tagged[
                k
            ].tag_id <= b.tags.len())),
    ensures
        spec_tags_of_upto(a, task_id, n) == spec_tags_of_upto(b, task_id, n),
    decreases n,
{
    if n > 0 {
        lemma_tags_of_upto_frame(a, b, task_id, n - 1);
    }
}

/// Appending a tag row does not change any task's tags, as long as no
/// association row dangles (none names a tag id past the table).
proof fn lemma_tags_of_after_create_tag(db: SpecDb, name: Seq<char>, task_id: u32)
    requires
        db.links_closed(),
    ensures
        spec_tags_of(spec_create_tag(db, name).0, task_id) == spec_tags_of(db, task_id),
    decreases db.tagged.len(),
{
    let db2 = spec_create_tag(db, name).0;
    lemma_tags_of_upto_frame(db, db2, task_id, db.tagged.len() as int);
}

/// Linking a task to an existing tag appends exactly that tag's name to
/// the task's tags, and nothing else changes in the aggregation.
proof fn lemma_tags_of_after_link(db: SpecDb, task_id: u32, tag_id: u32)
    requires
        1 <= tag_id <= db.tags.len(),
    ensures
        spec_tags_of(spec_tag_task(db, task_id, tag_id), task_id) == spec_tags_of(
            db,
            task_id,
        ).push(db.tags[tag_id - 1].name),
{
    let db2 = spec_tag_task(db, task_id, tag_id);
    lemma_tags_of_upto_frame(db2, db, task_id, db.tagged.len() as int);
    assert(spec_tags_of_upto(db2, task_id, db2.tagged.len() as int) == spec_tags_of_upto(
        db2,
        task_id,
        db.tagged.len() as int,
    ).push(db.tags[tag_id - 1].name));
}

/// When no tag row has the name yet, a lookup after appending one finds
/// exactly the appended row.
proof fn lemma_find_tag_after_push(tags: Seq<SpecTagRow>, row: SpecTagRow)
    requires
        spec_find_tag(tags, row.name) is None,
    ensures
        spec_find_tag(tags.push(row), row.name) == Some(row.id),
    decreases tags.len(),
{
    if tags.len() == 0 {
        assert(tags.push(row)[0] == row);
    } else {
        assert(tags.push(row)[0] == tags[0]);
        lemma_find_tag_after_push(tags.drop_first(), row);
        assert(tags.push(row).drop_first() =~= tags.drop_first().push(row));
    }
}

/// Tagging an existing task with a name no tag row has yet creates exactly
/// one tag row and one association row, and the task's tags then end with
/// that name.
pub proof fn lemma_tag_with_new_name(db: SpecDb, id: u32, tag: Seq<char>)
    requires
        db.wf(),
        db.links_closed(),
        db.initialized,
        db.tags.len() < u32::MAX,
        spec_fetch_task(db, id) is Some,
        spec_find_tag(db.tags, tag) is None,
    ensures
        ({
            let (db2, o) = spec_apply_tag(db, id, tag);
            &&& o.exit_code == 0
            &&& db2.tags.len() == db.tags.len() + 1
            &&& db2.tagged.len() == db.tagged.len() + 1
            &&& db2.tasks == db.tasks
            &&& spec_tags_of(db2, id) == spec_tags_of(db, id).push(tag)
            &&& match spec_fetch_task(db2, id) {
                Some(t) => t.tags == spec_tags_of(db, id).push(tag),
                None => false,
            }
        }),
{
    let (db1, tid) = spec_create_tag(db, tag);
    lemma_tags_of_after_create_tag(db, tag, id);
    assert(db1.tags[tid - 1].name == tag);
    lemma_tags_of_after_link(db1, id, tid);
    let (db2, o) = spec_apply_tag(db, id, tag);
    assert(db2 == spec_tag_task(db1, id, tid));
    assert(spec_tags_of(db2, id) == spec_tags_of(db, id).push(tag));
}

/// Tagging the same task twice with the same name creates the tag row only
/// the first time: the second run adds only a second association, so the
/// name then appears twice in the task's tags. The duplication is accepted
/// behaviour, not corrected.
pub proof fn lemma_tag_twice(db: SpecDb, id: u32, tag: Seq<char>)
    requires
        db.wf(),
        db.links_closed(),
        db.initialized,
        db.tags.len() < u32::MAX,
        spec_fetch_task(db, id) is Some,
        spec_find_tag(db.tags, tag) is None,
    ensures
        ({
            let (db1, o1) = spec_apply_tag(db, id, tag);
            let (db2, o2) = spec_apply_tag(db1, id, tag);
            &&& o1.exit_code == 0
            &&& o2.exit_code == 0
            &&& db2.tags == db1.tags
            &&& db2.tagged.len() == db1.tagged.len() + 1
            &&& spec_tags_of(db2, id) == spec_tags_of(db, id).push(tag).push(tag)
        }),
{
    let (dbc, tid) = spec_create_tag(db, tag);
    lemma_tags_of_after_create_tag(db, tag, id);
    lemma_find_tag_after_push(db.tags, SpecTagRow { id: tid, name: tag });
    assert(dbc.tags == db.tags.push(SpecTagRow { id: tid, name: tag }));
    lemma_tags_of_after_link(dbc, id, tid);
    let (db1, o1) = spec_apply_tag(db, id, tag);
    assert(db1 == spec_tag_task(dbc, id, tid));
    assert(db1.tags == dbc.tags);
    assert(spec_find_tag(db1.tags, tag) == Some(tid));
    assert(spec_fetch_task(db1, id) is Some);
    lemma_tags_of_after_link(db1, id, tid);
    let (db2, o2) = spec_apply_tag(db1, id, tag);
    assert(db2 == spec_tag_task(db1, id, tid));
    assert(db1.tags[tid - 1].name == tag);
    assert(spec_tags_of(db2, id) == spec_tags_of(db, id).push(tag).push(tag));
}

/// Tagging a task id that no task row has fails with a non-zero exit and
/// changes nothing: no tag row and no association row appears.
pub proof fn lemma_tag_missing_task(db: SpecDb, id: u32, tag: Seq<char>)
    requires
        db.initialized,
        spec_fetch_task(db, id) is None,
    ensures
        ({
            let (db2, o) = spec_apply_tag(db, id, tag);
            &&& db2 == db
            &&& o.exit_code == 1
        }),
{
}

/// A successful lookup returns the id of some row of the table whose name
/// matches.
proof fn lemma_find_tag_found(tags: Seq<SpecTagRow>, name: Seq<char>)
    requires
        spec_find_tag(tags, name) is Some,
    ensures
        exists|i: int|
            0 <= i < tags.len() && (#[trigger] tags[i]).id == spec_find_tag(tags, name)->Some_0
                && tags[i].name == name,
    decreases tags.len(),
{
    if tags.len() > 0 && tags[0].name != name {
        lemma_find_tag_found(tags.drop_first(), name);
        let w = choose|w: int|
            0 <= w < tags.drop_first().len() && (#[trigger] tags.drop_first()[w]).id
                == spec_find_tag(tags.drop_first(), name)->Some_0 && tags.drop_first()[w].name
                == name;
        assert(tags[w + 1] == tags.drop_first()[w]);
    }
}

/// Every command keeps the association rows pointing into the tables: the
/// commands only ever link a task that exists to a tag that exists, so the
/// hypothesis of the laws above holds of every reachable database.
pub proof fn lemma_apply_preserves_links_closed(db: SpecDb, cmd: SpecCommands, now: DateTime)
    requires
        db.wf(),
        db.links_closed(),
    ensures
        spec_apply(db, cmd, now).0.links_closed(),
{
    let db2 = spec_apply(db, cmd, now).0;
    match cmd {
        SpecCommands::Init => {},
        SpecCommands::Add { .. } => {
            if db.initialized {
                assert(db2.tagged == db.tagged);
                assert(db2.tasks.len() == db.tasks.len() + 1);
            }
        },
        SpecCommands::List => {},
        SpecCommands::Done { .. } => {},
        SpecCommands::Tag { id, tag } => {
            if db.initialized && spec_fetch_task(db, id) is Some {
                match spec_find_tag(db.tags, tag) {
                    Some(tid) => {
                        lemma_find_tag_found(db.tags, tag);
                        let w = choose|w: int|
                            0 <= w < db.tags.len() && (#[trigger] db.tags[w]).id == tid
                                && db.tags[w].name == tag;
                        assert(tid == w + 1);
                        assert(db2.tagged == db.tagged.push(
                            crate::db::TaggedRow { task_id: id, tag_id: tid },
                        ));
                        assert forall|k: int|
                            0 <= k < db2.tagged.len() implies (#[trigger] db2.tagged[k]).task_id
                            <= db2.tasks.len() && db2.tagged[k].tag_id <= db2.tags.len() by {
                            if k < db.tagged.len() {
                                assert(db2.tagged[k] == db.tagged[k]);
                            }
                        };
                    },
                    None => {
                        let (dbc, tid) = spec_create_tag(db, tag);
                        assert(db2.tagged == db.tagged.push(
                            crate::db::TaggedRow { task_id: id, tag_id: tid },
                        ));
                        assert(db2.tags.len() == db.tags.len() + 1);
                        assert forall|k: int|
                            0 <= k < db2.tagged.len() implies (#[trigger] db2.tagged[k]).task_id
                            <= db2.tasks.len() && db2.tagged[k].tag_id <= db2.tags.len() by {
                            if k < db.tagged.len() {
                                assert(db2.tagged[k] == db.tagged[k]);
                            }
                        };
                    },
                }
            }
        },
    }
}

/// The list holds every task exactly once: it is as long as the tasks
/// table, and no task repeats in it.
pub proof fn lemma_list_each_task_once(db: SpecDb)
    requires
        db.wf(),
    ensures
        ({
            let s = spec_sort_by_due(spec_joined(db));
            &&& s.len() == db.tasks.len()
            &&& s.no_duplicates()
        }),
{
    broadcast use vstd::seq_lib::group_to_multiset_ensures;

    let joined = spec_joined(db);
    let s = spec_sort_by_due(joined);
    lemma_sort_by_due_multiset(joined);
    joined.to_multiset_ensures();
    s.to_multiset_ensures();
    assert(s.len() == joined.len());
    assert forall|i: int, j: int|
        0 <= i < joined.len() && 0 <= j < joined.len() && i != j implies joined[i]
        != joined[j] by {
        assert(joined[i] == spec_task_at(db, i));
        assert(joined[j] == spec_task_at(db, j));
        assert(db.tasks[i].id == i + 1 && db.tasks[j].id == j + 1);
    };
    assert(joined.no_duplicates());
    joined.lemma_multiset_has_no_duplicates();
    s.lemma_multiset_has_no_duplicates_conv();
}

/// The round trip of a due date: any text the command line accepts, once
/// stored in the storage format and read back, is the same moment again,
/// and formatting that moment in the command-line format gives back the
/// original text.
pub proof fn lemma_due_round_trip(s: Seq<char>)
    requires
        spec_parse_dt(s, 'T') is Some,
    ensures
        ({
            let dt = spec_parse_dt(s, 'T')->Some_0;
            &&& spec_parse_dt(spec_format_dt(dt, ' '), ' ') == Some(dt)
            &&& spec_format_dt(dt, 'T') == s
        }),
{
    let dt = spec_parse_dt(s, 'T')->Some_0;
    assert(dt.valid());
    lemma_format_parse(dt, ' ');
    lemma_parse_format(s, 'T');
}

} // verus!
