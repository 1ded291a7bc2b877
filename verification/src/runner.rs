use vstd::prelude::*;

use crate::cli::{
    parse_args, spec_parse_args, Commands, ParseOutcome, SpecCommands, SpecParseOutcome,
};
use crate::datetime::DateTime;
use crate::db::{spec_init_schema, Db, SpecDb, StoreError};
use crate::strutil::{push_u32_chars, spec_u32_chars, string_from_chars};
use crate::tag::{
    create_tag, fetch_tag_id_with_name, spec_create_tag, spec_find_tag, spec_tag_task, tag_task,
};
use crate::task::{
    create_task, fetch_task_with_id, fetch_tasks, finish_task, render_task_table,
    spec_create_task, spec_fetch_task, spec_finish_task, spec_joined, spec_sort_by_due,
    spec_table_cells, spec_table_header, spec_task_views, rendered_table,
    lemma_sort_by_due_multiset,
};

verus! {

/// What one invocation came to: the process exit code and the line or table
/// it prints, if any. A successful `tag` prints nothing.
pub struct RunOutcome {
    pub exit_code: i32,
    pub output: Option<String>,
}

/// The mathematical image of an invocation's outcome.
pub struct SpecRunOutcome {
    pub exit_code: i32,
    pub output: Option<Seq<char>>,
}

impl View for RunOutcome {
    type V = SpecRunOutcome;

    open spec fn view(&self) -> SpecRunOutcome {
        SpecRunOutcome {
            exit_code: self.exit_code,
            output: match &self.output {
                Some(s) => Some(s@),
                None => None,
            },
        }
    }
}

/// A success that prints the given text.
pub open spec fn spec_ok_out(s: Seq<char>) -> SpecRunOutcome {
    SpecRunOutcome { exit_code: 0, output: Some(s) }
}

/// A failure that reports the given text.
pub open spec fn spec_err_out(s: Seq<char>) -> SpecRunOutcome {
    SpecRunOutcome { exit_code: 1, output: Some(s) }
}

/// A success that prints nothing.
pub open spec fn spec_silent_ok() -> SpecRunOutcome {
    SpecRunOutcome { exit_code: 0, output: None }
}

/// The usage text shown for help requests and usage errors.
pub open spec fn spec_usage() -> Seq<char> {
    "Usage: todo [OPTIONS] [COMMAND]"@
}

/// The `tag` flow: check that the task exists, reuse the tag row with that
/// name if one exists and create one otherwise, then link the task to it.
/// A missing task is an error before any change; success prints nothing.
pub open spec fn spec_apply_tag(db: SpecDb, id: u32, tag: Seq<char>) -> (SpecDb, SpecRunOutcome) {
    if !db.initialized {
        (db, spec_err_out(StoreError::MissingTables.spec_message()))
    } else {
        match spec_fetch_task(db, id) {
            None => (
                db,
                spec_err_out("Task with id "@ + spec_u32_chars(id) + " not found"@),
            ),
            Some(_) => match spec_find_tag(db.tags, tag) {
                Some(tid) => (spec_tag_task(db, id, tid), spec_silent_ok()),
                None => {
                    let (db2, tid) = spec_create_tag(db, tag);
                    (spec_tag_task(db2, id, tid), spec_silent_ok())
                },
            },
        }
    }
}

/// The effect of one parsed command on the database, and what it reports.
pub open spec fn spec_apply(db: SpecDb, cmd: SpecCommands, now: DateTime) -> (
    SpecDb,
    SpecRunOutcome,
) {
    match cmd {
        SpecCommands::Init => {
            let (db2, r) = spec_init_schema(db);
            match r {
                Ok(_) => (db2, spec_ok_out("Done initializing database"@)),
                Err(e) => (db2, spec_err_out(e.spec_message())),
            }
        },
        SpecCommands::Add { name, due } => {
            if !db.initialized {
                (db, spec_err_out(StoreError::MissingTables.spec_message()))
            } else {
                let (db2, id) = spec_create_task(db, name, due);
                (db2, spec_ok_out("Task with id "@ + spec_u32_chars(id) + " added"@))
            }
        },
        SpecCommands::List => {
            if !db.initialized {
                (db, spec_err_out(StoreError::MissingTables.spec_message()))
            } else {
                (
                    db,
                    spec_ok_out(
                        rendered_table(
                            spec_table_header(),
                            spec_table_cells(spec_sort_by_due(spec_joined(db))),
                        ),
                    ),
                )
            }
        },
        SpecCommands::Done { id } => {
            if !db.initialized {
                (db, spec_err_out(StoreError::MissingTables.spec_message()))
            } else {
                (
                    spec_finish_task(db, id, now),
                    spec_ok_out("Finished task "@ + spec_u32_chars(id)),
                )
            }
        },
        SpecCommands::Tag { id, tag } => spec_apply_tag(db, id, tag),
    }
}

/// One whole invocation: parse the arguments, then apply the command.
/// No arguments at all is a success that prints `No command provided`;
/// `--version` prints `todo 0.1.0`; a usage error exits with code 2.
pub open spec fn spec_run(db: SpecDb, args: Seq<Seq<char>>, now: DateTime) -> (
    SpecDb,
    SpecRunOutcome,
) {
    match spec_parse_args(args) {
        SpecParseOutcome::Version => (db, spec_ok_out("todo 0.1.0"@)),
        SpecParseOutcome::Help => (db, spec_ok_out(spec_usage())),
        SpecParseOutcome::Invalid => (
            db,
            SpecRunOutcome { exit_code: 2, output: Some(spec_usage()) },
        ),
        SpecParseOutcome::Parsed(cli) => match cli.command {
            None => (db, spec_ok_out("No command provided"@)),
            Some(c) => spec_apply(db, c, now),
        },
    }
}

/// The given text with the id's decimal digits spliced in between.
fn msg_with_id(prefix: &str, id: u32, suffix: &str) -> (r: String)
    ensures
        r@ == prefix@ + spec_u32_chars(id) + suffix@,
{
    let mut s: String = prefix.to_owned();
    let mut v: Vec<char> = Vec::new();
    push_u32_chars(id, &mut v);
    s.append(string_from_chars(&v).as_str());
    s.append(suffix);
    proof {
        assert(s@ =~= prefix@ + spec_u32_chars(id) + suffix@);
    }
    s
}

/// Applies one parsed command to the database, `now` being the timestamp
/// that a `done` command stores.
pub fn apply_command(db: &mut Db, cmd: &Commands, now: DateTime) -> (r: RunOutcome)
    requires
        old(db)@.wf(),
        now.valid(),
        old(db)@.tasks.len() < u32::MAX,
        old(db)@.tags.len() < u32::MAX,
        cmd@ matches SpecCommands::Add { due, .. } ==> due.valid(),
    ensures
        final(db)@.wf(),
        final(db)@ == spec_apply(old(db)@, cmd@, now).0,
        r@ == spec_apply(old(db)@, cmd@, now).1,
{
    match cmd {
        Commands::Init => match db.init_schema() {
            Ok(_) => RunOutcome {
                exit_code: 0,
                output: Some("Done initializing database".to_owned()),
            },
            Err(e) => RunOutcome { exit_code: 1, output: Some(e.message()) },
        },
        Commands::Add { name, due } => match create_task(db, name.as_str(), *due) {
            Ok(id) => RunOutcome {
                exit_code: 0,
                output: Some(msg_with_id("Task with id ", id, " added")),
            },
            Err(e) => RunOutcome { exit_code: 1, output: Some(e.message()) },
        },
        Commands::List => match fetch_tasks(db) {
            Ok(v) => {
                proof {
                    let joined = spec_joined(db@);
                    let vs = spec_task_views(v@);
                    lemma_sort_by_due_multiset(joined);
                    broadcast use vstd::seq_lib::group_to_multiset_ensures;

                    assert forall|i: int| 0 <= i < v@.len() implies (#[trigger] v@[i])@.due.valid()
                        && (v@[i]@.finished is Some ==> v@[i]@.finished->0.valid()) by {
                        assert(vs[i] == v@[i]@);
                        assert(vs.contains(vs[i]));
                        assert(joined.to_multiset().contains(vs[i]));
                        assert(joined.contains(vs[i]));
                        let w = choose|w: int|
                            0 <= w < joined.len() && joined[w] == vs[i];
                        assert(joined[w].due == db@.tasks[w].due);
                    };
                }
                let table = render_task_table(&v);
                RunOutcome { exit_code: 0, output: Some(table) }
            },
            Err(e) => RunOutcome { exit_code: 1, output: Some(e.message()) },
        },
        Commands::Done { id } => match finish_task(db, *id, now) {
            Ok(_) => {
                let out = msg_with_id("Finished task ", *id, "");
                proof {
                    reveal_strlit("");
                    assert(out@ =~= "Finished task "@ + spec_u32_chars(*id));
                }
                RunOutcome { exit_code: 0, output: Some(out) }
            },
            Err(e) => RunOutcome { exit_code: 1, output: Some(e.message()) },
        },
        Commands::Tag { id, tag } => match fetch_task_with_id(db, *id) {
            Ok(Some(_)) => match fetch_tag_id_with_name(db, tag.as_str()) {
                Ok(Some(tag_id)) => match tag_task(db, *id, tag_id) {
                    Ok(_) => RunOutcome { exit_code: 0, output: None },
                    Err(e) => RunOutcome { exit_code: 1, output: Some(e.message()) },
                },
                Ok(None) => match create_tag(db, tag.as_str()) {
                    Ok(tag_id) => match tag_task(db, *id, tag_id) {
                        Ok(_) => RunOutcome { exit_code: 0, output: None },
                        Err(e) => RunOutcome { exit_code: 1, output: Some(e.message()) },
                    },
                    Err(e) => RunOutcome { exit_code: 1, output: Some(e.message()) },
                },
                Err(e) => RunOutcome { exit_code: 1, output: Some(e.message()) },
            },
            Ok(None) => RunOutcome {
                exit_code: 1,
                output: Some(msg_with_id("Task with id ", *id, " not found")),
            },
            Err(e) => RunOutcome { exit_code: 1, output: Some(e.message()) },
        },
    }
}

/// Runs one invocation against the database: parses the arguments, applies
/// the command, and reports what the process prints and exits with.
pub fn run_cli(db: &mut Db, args: &Vec<String>, now: DateTime) -> (r: RunOutcome)
    requires
        old(db)@.wf(),
        now.valid(),
        old(db)@.tasks.len() < u32::MAX,
        old(db)@.tags.len() < u32::MAX,
    ensures
        final(db)@.wf(),
        final(db)@ == spec_run(old(db)@, args.deep_view(), now).0,
        r@ == spec_run(old(db)@, args.deep_view(), now).1,
{
    match parse_args(args) {
        ParseOutcome::Version => RunOutcome {
            exit_code: 0,
            output: Some("todo 0.1.0".to_owned()),
        },
        ParseOutcome::Help => RunOutcome {
            exit_code: 0,
            output: Some("Usage: todo [OPTIONS] [COMMAND]".to_owned()),
        },
        ParseOutcome::Invalid => RunOutcome {
            exit_code: 2,
            output: Some("Usage: todo [OPTIONS] [COMMAND]".to_owned()),
        },
        ParseOutcome::Parsed(cli) => match &cli.command {
            None => RunOutcome { exit_code: 0, output: Some("No command provided".to_owned()) },
            Some(c) => {
                proof {
                    crate::cli::lemma_parse_args_due_valid(args.deep_view());
                }
                apply_command(db, c, now)
            },
        },
    }
}

} // verus!
