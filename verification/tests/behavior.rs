use todo::datetime::{format_dt, DateTime};
use todo::db::Db;
use todo::runner::run_cli;
use todo::task::{create_task, fetch_task_with_id, fetch_tasks, render_line, Task};

fn dt(year: u32, month: u32, day: u32, hour: u32, minute: u32, second: u32) -> DateTime {
    DateTime { year, month, day, hour, minute, second }
}

fn some_moment() -> DateTime {
    dt(2021, 12, 30, 8, 5, 9)
}

fn argv(parts: &[&str]) -> Vec<String> {
    parts.iter().map(|p| p.to_string()).collect()
}

fn initialized_db() -> Db {
    let mut db = Db::fresh();
    let out = run_cli(&mut db, &argv(&["todo", "init"]), some_moment());
    assert_eq!(out.exit_code, 0);
    assert_eq!(out.output, Some("Done initializing database".to_string()));
    db
}

#[test]
fn add_before_init_fails() {
    let mut db = Db::fresh();
    let out = run_cli(
        &mut db,
        &argv(&["todo", "add", "--name", "task", "--due", "2021-12-21T12:00:00"]),
        some_moment(),
    );
    assert_eq!(out.exit_code, 1);
    assert_eq!(out.output, Some("no such table: tasks".to_string()));
    assert_eq!(db.tasks.len(), 0);
}

#[test]
fn double_init_fails() {
    let mut db = initialized_db();
    let out = run_cli(&mut db, &argv(&["todo", "init"]), some_moment());
    assert_eq!(out.exit_code, 1);
    assert_eq!(out.output, Some("table tasks already exists".to_string()));
}

#[test]
fn add_creates_one_task_with_stored_due() {
    let mut db = initialized_db();
    let out = run_cli(
        &mut db,
        &argv(&["todo", "add", "--name", "task", "--due", "2021-12-21T12:00:00"]),
        some_moment(),
    );
    assert_eq!(out.exit_code, 0);
    assert_eq!(out.output, Some("Task with id 1 added".to_string()));
    assert_eq!(db.tasks.len(), 1);
    assert_eq!(format_dt(&db.tasks[0].due, ' '), "2021-12-21 12:00:00".to_string());
}

#[test]
fn created_task_fetches_back() {
    let mut db = initialized_db();
    let id = create_task(&mut db, "water the plants", dt(2022, 3, 4, 5, 6, 7)).unwrap();
    let fetched = fetch_task_with_id(&db, id).unwrap().unwrap();
    assert_eq!(fetched.id, id);
    assert_eq!(fetched.name, "water the plants".to_string());
    assert_eq!(fetched.due, dt(2022, 3, 4, 5, 6, 7));
    assert!(fetched.finished.is_none());
    assert!(fetched.tags.is_empty());
}

#[test]
fn done_sets_finished_and_list_shows_it() {
    let mut db = initialized_db();
    run_cli(
        &mut db,
        &argv(&["todo", "add", "--name", "task", "--due", "2021-12-21T12:00:00"]),
        some_moment(),
    );
    let out = run_cli(&mut db, &argv(&["todo", "done", "--id", "1"]), some_moment());
    assert_eq!(out.exit_code, 0);
    assert_eq!(out.output, Some("Finished task 1".to_string()));
    assert_eq!(db.tasks[0].finished, Some(some_moment()));

    let list = run_cli(&mut db, &argv(&["todo", "list"]), some_moment());
    assert_eq!(list.exit_code, 0);
    let table = list.output.unwrap();
    assert!(table.contains("2021-12-30 08:05:09"));
}

#[test]
fn done_on_missing_id_is_a_silent_no_op() {
    let mut db = initialized_db();
    run_cli(
        &mut db,
        &argv(&["todo", "add", "--name", "task", "--due", "2021-12-21T12:00:00"]),
        some_moment(),
    );
    let out = run_cli(&mut db, &argv(&["todo", "done", "--id", "7"]), some_moment());
    assert_eq!(out.exit_code, 0);
    assert_eq!(out.output, Some("Finished task 7".to_string()));
    assert!(db.tasks[0].finished.is_none());
}

#[test]
fn tag_with_new_name_creates_tag_and_association() {
    let mut db = initialized_db();
    run_cli(
        &mut db,
        &argv(&["todo", "add", "--name", "task", "--due", "2021-12-21T12:00:00"]),
        some_moment(),
    );
    let out = run_cli(&mut db, &argv(&["todo", "tag", "--id", "1", "--tag", "urgent"]), some_moment());
    assert_eq!(out.exit_code, 0);
    assert_eq!(out.output, None);
    assert_eq!(db.tags.len(), 1);
    assert_eq!(db.tags[0].name, "urgent".to_string());
    assert_eq!(db.tagged.len(), 1);
    let fetched = fetch_task_with_id(&db, 1).unwrap().unwrap();
    assert_eq!(fetched.tags, vec!["urgent".to_string()]);
}

#[test]
fn tag_twice_duplicates_association_but_not_tag() {
    let mut db = initialized_db();
    run_cli(
        &mut db,
        &argv(&["todo", "add", "--name", "task", "--due", "2021-12-21T12:00:00"]),
        some_moment(),
    );
    let args = argv(&["todo", "tag", "--id", "1", "--tag", "urgent"]);
    assert_eq!(run_cli(&mut db, &args, some_moment()).exit_code, 0);
    assert_eq!(run_cli(&mut db, &args, some_moment()).exit_code, 0);
    assert_eq!(db.tags.len(), 1);
    assert_eq!(db.tagged.len(), 2);
    let fetched = fetch_task_with_id(&db, 1).unwrap().unwrap();
    assert_eq!(fetched.tags, vec!["urgent".to_string(), "urgent".to_string()]);
}

#[test]
fn tag_missing_task_fails_without_side_effects() {
    let mut db = initialized_db();
    let out = run_cli(&mut db, &argv(&["todo", "tag", "--id", "9", "--tag", "x"]), some_moment());
    assert_eq!(out.exit_code, 1);
    assert_eq!(out.output, Some("Task with id 9 not found".to_string()));
    assert_eq!(db.tags.len(), 0);
    assert_eq!(db.tagged.len(), 0);
}

#[test]
fn fetch_tasks_orders_by_due_and_keeps_untagged_empty() {
    let mut db = initialized_db();
    run_cli(
        &mut db,
        &argv(&["todo", "add", "--name", "later", "--due", "2022-06-01T00:00:00"]),
        some_moment(),
    );
    run_cli(
        &mut db,
        &argv(&["todo", "add", "--name", "sooner", "--due", "2021-01-15T09:30:00"]),
        some_moment(),
    );
    run_cli(&mut db, &argv(&["todo", "tag", "--id", "1", "--tag", "urgent"]), some_moment());
    let tasks = fetch_tasks(&db).unwrap();
    assert_eq!(tasks.len(), 2);
    assert_eq!(tasks[0].name, "sooner".to_string());
    assert_eq!(tasks[1].name, "later".to_string());
    assert_eq!(tasks[0].tags, Vec::<String>::new());
    assert_eq!(tasks[1].tags, vec!["urgent".to_string()]);
}

#[test]
fn list_renders_header_and_cells() {
    let mut db = initialized_db();
    run_cli(
        &mut db,
        &argv(&["todo", "add", "--name", "task", "--due", "2021-12-21T12:00:00"]),
        some_moment(),
    );
    let out = run_cli(&mut db, &argv(&["todo", "list"]), some_moment());
    assert_eq!(out.exit_code, 0);
    let table = out.output.unwrap();
    assert!(table.contains("ID"));
    assert!(table.contains("Name"));
    assert!(table.contains("Due"));
    assert!(table.contains("Finished"));
    assert!(table.contains("Tags"));
    assert!(table.contains("task"));
    assert!(table.contains("2021-12-21 12:00:00"));
}

#[test]
fn render_line_exact_text() {
    let task = Task {
        id: 3,
        name: "call the plumber".to_string(),
        finished: Some(dt(2021, 12, 30, 8, 5, 9)),
        due: dt(2021, 12, 21, 12, 0, 0),
        tags: vec!["home".to_string(), "urgent".to_string()],
    };
    assert_eq!(
        render_line(&task),
        "Task 3: call the plumber (due: 2021-12-21 12:00:00, finished: 2021-12-30 08:05:09, tags: home,urgent)"
            .to_string()
    );
    let open_task = Task {
        id: 10,
        name: "untagged".to_string(),
        finished: None,
        due: dt(2021, 12, 21, 12, 0, 0),
        tags: Vec::new(),
    };
    assert_eq!(
        render_line(&open_task),
        "Task 10: untagged (due: 2021-12-21 12:00:00, finished: , tags: )".to_string()
    );
}

#[test]
fn usage_errors_exit_with_code_two() {
    let mut db = initialized_db();
    let cases: Vec<Vec<String>> = vec![
        argv(&["todo", "add", "--name", "task"]),
        argv(&["todo", "add", "--name", "task", "--due", "not-a-date"]),
        argv(&["todo", "done", "--id", "zero"]),
        argv(&["todo", "unknown"]),
        argv(&["todo", "--bogus"]),
        argv(&["todo", "init", "extra"]),
        argv(&["todo", "tag", "--id", "1"]),
    ];
    for args in cases {
        let out = run_cli(&mut db, &args, some_moment());
        assert_eq!(out.exit_code, 2);
    }
    assert_eq!(db.tasks.len(), 0);
}

#[test]
fn global_options_are_accepted_and_inert() {
    let mut db = initialized_db();
    let out = run_cli(
        &mut db,
        &argv(&["todo", "--config", "conf.toml", "-d", "-d", "list"]),
        some_moment(),
    );
    assert_eq!(out.exit_code, 0);
}
