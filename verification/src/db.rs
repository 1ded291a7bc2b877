use vstd::prelude::*;

use crate::datetime::DateTime;

verus! {

/// One row of the tasks table:
/// `tasks(id INTEGER PRIMARY KEY, name TEXT NOT NULL, due_date DATE, finished_date DATE)`.
pub struct TaskRow {
    pub id: u32,
    pub name: String,
    pub due: DateTime,
    pub finished: Option<DateTime>,
}

/// The mathematical image of a task row.
pub struct SpecTaskRow {
    pub id: u32,
    pub name: Seq<char>,
    pub due: DateTime,
    pub finished: Option<DateTime>,
}

impl View for TaskRow {
    type V = SpecTaskRow;

    open spec fn view(&self) -> SpecTaskRow {
        SpecTaskRow { id: self.id, name: self.name@, due: self.due, finished: self.finished }
    }
}

/// One row of the tags table: `tags(id INTEGER PRIMARY KEY, name TEXT NOT NULL)`.
pub struct TagRow {
    pub id: u32,
    pub name: String,
}

/// The mathematical image of a tag row.
pub struct SpecTagRow {
    pub id: u32,
    pub name: Seq<char>,
}

impl View for TagRow {
    type V = SpecTagRow;

    open spec fn view(&self) -> SpecTagRow {
        SpecTagRow { id: self.id, name: self.name@ }
    }
}

/// One row of the association table: `tagged(task_id INTEGER, tag_id INTEGER)`.
/// The table has no key: the same pair may occur more than once.
#[derive(Clone, Copy, Debug, PartialEq, Eq, Structural)]
pub struct TaggedRow {
    pub task_id: u32,
    pub tag_id: u32,
}

/// The three tables of one database file, plus whether the schema has been
/// created. A fresh file exists but holds no tables; every operation other
/// than creating the schema fails until they exist.
pub struct Db {
    pub initialized: bool,
    pub tasks: Vec<TaskRow>,
    pub tags: Vec<TagRow>,
    pub tagged: Vec<TaggedRow>,
}

/// The mathematical image of a database.
pub struct SpecDb {
    pub initialized: bool,
    pub tasks: Seq<SpecTaskRow>,
    pub tags: Seq<SpecTagRow>,
    pub tagged: Seq<TaggedRow>,
}

impl View for Db {
    type V = SpecDb;

    open spec fn view(&self) -> SpecDb {
        SpecDb {
            initialized: self.initialized,
            tasks: self.tasks@.map_values(|r: TaskRow| r@),
            tags: self.tags@.map_values(|r: TagRow| r@),
            tagged: self.tagged@,
        }
    }
}

impl SpecDb {
    /// Row ids are assigned by position, starting at one, and rows are never
    /// deleted: the id of the row at index `i` is `i + 1`. The length bounds
    /// keep the next id representable, and every stored timestamp names a
    /// real calendar moment.
    pub open spec fn wf(self) -> bool {
        &&& self.tasks.len() <= u32::MAX
        &&& self.tags.len() <= u32::MAX
        &&& forall|i: int| 0 <= i < self.tasks.len() ==> (#[trigger] self.tasks[i]).id == i + 1
        &&& forall|i: int| 0 <= i < self.tags.len() ==> (#[trigger] self.tags[i]).id == i + 1
        &&& forall|i: int|
            0 <= i < self.tasks.len() ==> (#[trigger] self.tasks[i]).due.valid() && (
            self.tasks[i].finished is Some ==> self.tasks[i].finished->0.valid())
    }

    /// No association row points past the end of a table: the orchestrated
    /// commands only ever link a task that exists to a tag that exists.
    pub open spec fn links_closed(self) -> bool {
        forall|k: int|
            0 <= k < self.tagged.len() ==> (#[trigger] self.tagged[k]).task_id
                <= self.tasks.len() && self.tagged[k].tag_id <= self.tags.len()
    }
}

/// A failure of a store operation against the database file.
#[derive(Clone, Copy, Debug, PartialEq, Eq, Structural)]
pub enum StoreError {
    /// An operation ran before the schema was created.
    MissingTables,
    /// The schema was created twice.
    TablesExist,
}

impl StoreError {
    /// The text reported for this failure.
    pub open spec fn spec_message(self) -> Seq<char> {
        match self {
            StoreError::MissingTables => "no such table: tasks"@,
            StoreError::TablesExist => "table tasks already exists"@,
        }
    }

    pub fn message(&self) -> (r: String)
        ensures
            r@ == self.spec_message(),
    {
        match self {
            StoreError::MissingTables => "no such table: tasks".to_owned(),
            StoreError::TablesExist => "table tasks already exists".to_owned(),
        }
    }
}

/// The result of creating the schema: the tables exist afterwards, and
/// creating them twice is an error that changes nothing.
pub open spec fn spec_init_schema(db: SpecDb) -> (SpecDb, Result<(), StoreError>) {
    if db.initialized {
        (db, Err(StoreError::TablesExist))
    } else {
        (
            SpecDb {
                initialized: true,
                tasks: db.tasks,
                tags: db.tags,
                tagged: db.tagged,
            },
            Ok(()),
        )
    }
}

/// The image of a database file that was just created: no tables yet.
pub open spec fn spec_fresh_db() -> SpecDb {
    SpecDb {
        initialized: false,
        tasks: Seq::empty(),
        tags: Seq::empty(),
        tagged: Seq::empty(),
    }
}

impl Db {
    /// A database file that was just created, before any schema exists.
    pub fn fresh() -> (db: Db)
        ensures
            db@ == spec_fresh_db(),
            db@.wf(),
    {
        let db = Db { initialized: false, tasks: Vec::new(), tags: Vec::new(), tagged: Vec::new() };
        proof {
            assert(db@.tasks =~= Seq::<SpecTaskRow>::empty());
            assert(db@.tags =~= Seq::<SpecTagRow>::empty());
            assert(db@ =~= spec_fresh_db());
        }
        db
    }

    /// Creates the three tables. Creating them twice is an error and changes
    /// nothing, as running the plain `CREATE TABLE` statements twice would be.
    pub fn init_schema(&mut self) -> (r: Result<(), StoreError>)
        ensures
            final(self)@ == spec_init_schema(old(self)@).0,
            r == spec_init_schema(old(self)@).1,
    {
        if self.initialized {
            Err(StoreError::TablesExist)
        } else {
            self.initialized = true;
            Ok(())
        }
    }
}

} // verus!
