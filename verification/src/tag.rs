use vstd::prelude::*;

use crate::db::{Db, SpecDb, SpecTagRow, StoreError, TagRow, TaggedRow};
use crate::strutil::string_eq;

verus! {

/// The id of the first tag row whose name matches, scanning in row order.
pub open spec fn spec_find_tag(tags: Seq<SpecTagRow>, name: Seq<char>) -> Option<u32>
    decreases tags.len(),
{
    if tags.len() == 0 {
        None
    } else if tags[0].name == name {
        Some(tags[0].id)
    } else {
        spec_find_tag(tags.drop_first(), name)
    }
}

/// Scanning may skip a prefix with no match.
proof fn lemma_find_tag_skip(tags: Seq<SpecTagRow>, name: Seq<char>, i: int)
    requires
        0 <= i <= tags.len(),
        forall|j: int| 0 <= j < i ==> (#[trigger] tags[j]).name != name,
    ensures
        spec_find_tag(tags, name) == spec_find_tag(tags.skip(i), name),
    decreases i,
{
    if i > 0 {
        lemma_find_tag_skip(tags.drop_first(), name, i - 1);
        assert(tags.drop_first().skip(i - 1) =~= tags.skip(i));
        assert(tags[0].name != name);
    } else {
        assert(tags.skip(0) =~= tags);
    }
}

/// The result of creating a tag row with the given name: the row is appended
/// with the next id, whether or not a tag of that name already exists.
pub open spec fn spec_create_tag(db: SpecDb, name: Seq<char>) -> (SpecDb, u32) {
    let id = (db.tags.len() + 1) as u32;
    (
        SpecDb {
            initialized: db.initialized,
            tasks: db.tasks,
            tags: db.tags.push(SpecTagRow { id, name }),
            tagged: db.tagged,
        },
        id,
    )
}

/// The result of associating a task id with a tag id: the pair is appended
/// unconditionally, so repeating it duplicates the link.
pub open spec fn spec_tag_task(db: SpecDb, task_id: u32, tag_id: u32) -> SpecDb {
    SpecDb {
        initialized: db.initialized,
        tasks: db.tasks,
        tags: db.tags,
        tagged: db.tagged.push(TaggedRow { task_id, tag_id }),
    }
}

/// Inserts a row into `tags` and returns its id. No check is made for an
/// existing tag of the same name: that is the caller's business.
pub fn create_tag(db: &mut Db, name: &str) -> (r: Result<u32, StoreError>)
    requires
        old(db)@.wf(),
        old(db)@.tags.len() < u32::MAX,
    ensures
        final(db)@.wf(),
        !old(db)@.initialized ==> r == Result::<u32, StoreError>::Err(StoreError::MissingTables)
            && final(db)@ == old(db)@,
        old(db)@.initialized ==> r == Result::<u32, StoreError>::Ok(
            spec_create_tag(old(db)@, name@).1,
        ) && final(db)@ == spec_create_tag(old(db)@, name@).0,
{
    if !db.initialized {
        proof {
            assert(db@ =~= old(db)@);
        }
        return Err(StoreError::MissingTables);
    }
    let id = db.tags.len() as u32 + 1;
    db.tags.push(TagRow { id, name: name.to_owned() });
    proof {
        assert(db@.tags =~= old(db)@.tags.push(SpecTagRow { id, name: name@ }));
        assert(final(db)@ =~= spec_create_tag(old(db)@, name@).0);
        assert forall|i: int| 0 <= i < db@.tags.len() implies (#[trigger] db@.tags[i]).id == i
            + 1 by {
            if i < old(db)@.tags.len() {
                assert(db@.tags[i] == old(db)@.tags[i]);
            }
        };
    }
    Ok(id)
}

/// Looks a tag name up, returning the id of the first row with that exact
/// name, or `None` when no tag row has it.
pub fn fetch_tag_id_with_name(db: &Db, name: &str) -> (r: Result<Option<u32>, StoreError>)
    ensures
        !db@.initialized ==> r == Result::<Option<u32>, StoreError>::Err(
            StoreError::MissingTables,
        ),
        db@.initialized ==> r == Result::<Option<u32>, StoreError>::Ok(
            spec_find_tag(db@.tags, name@),
        ),
{
    if !db.initialized {
        return Err(StoreError::MissingTables);
    }
    let owned = name.to_owned();
    let mut i: usize = 0;
    while i < db.tags.len()
        invariant
            db@.initialized,
            i <= db.tags.len(),
            owned@ == name@,
            forall|j: int| 0 <= j < i ==> (#[trigger] db@.tags[j]).name != name@,
        decreases db.tags.len() - i,
    {
        if string_eq(&db.tags[i].name, name) {
            proof {
                lemma_find_tag_skip(db@.tags, name@, i as int);
                assert(db@.tags.skip(i as int)[0] == db@.tags[i as int]);
                assert(spec_find_tag(db@.tags, name@) == Some(db@.tags[i as int].id));
            }
            return Ok(Some(db.tags[i].id));
        }
        i = i + 1;
    }
    proof {
        lemma_find_tag_skip(db@.tags, name@, db@.tags.len() as int);
        assert(db@.tags.skip(db@.tags.len() as int) =~= Seq::<SpecTagRow>::empty());
    }
    Ok(None)
}

/// Inserts a row into `tagged`, linking the task id to the tag id, with no
/// check of either id and no check for an existing link.
pub fn tag_task(db: &mut Db, task_id: u32, tag_id: u32) -> (r: Result<(), StoreError>)
    ensures
        !old(db)@.initialized ==> r == Result::<(), StoreError>::Err(StoreError::MissingTables)
            && final(db)@ == old(db)@,
        old(db)@.initialized ==> r == Result::<(), StoreError>::Ok(())
            && final(db)@ == spec_tag_task(old(db)@, task_id, tag_id),
{
    if !db.initialized {
        proof {
            assert(db@ =~= old(db)@);
        }
        return Err(StoreError::MissingTables);
    }
    db.tagged.push(TaggedRow { task_id, tag_id });
    proof {
        assert(final(db)@ =~= spec_tag_task(old(db)@, task_id, tag_id));
    }
    Ok(())
}

} // verus!
