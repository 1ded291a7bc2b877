use todo::datetime::DateTime;
use todo::db::Db;
use todo::runner::run_cli;

fn some_moment() -> DateTime {
    DateTime { year: 2021, month: 12, day: 21, hour: 12, minute: 0, second: 0 }
}

fn argv(parts: &[&str]) -> Vec<String> {
    parts.iter().map(|p| p.to_string()).collect()
}

#[test]
fn add_tasks() {
    let mut db = Db::fresh();
    let init = run_cli(&mut db, &argv(&["todo", "init"]), some_moment());
    assert_eq!(init.exit_code, 0);

    let add = run_cli(
        &mut db,
        &argv(&["todo", "add", "--name", "task", "--due", "2021-12-21T12:00:00"]),
        some_moment(),
    );
    assert_eq!(add.exit_code, 0);
}
