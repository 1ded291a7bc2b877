use todo::datetime::DateTime;
use todo::db::Db;
use todo::runner::run_cli;

fn some_moment() -> DateTime {
    DateTime { year: 2021, month: 12, day: 21, hour: 12, minute: 0, second: 0 }
}

fn argv(parts: &[&str]) -> Vec<String> {
    parts.iter().map(|p| p.to_string()).collect()
}

#[test]
fn start_the_app() {
    let mut db = Db::fresh();
    let out = run_cli(&mut db, &argv(&["todo"]), some_moment());
    assert_eq!(out.exit_code, 0);
    assert_eq!(out.output, Some("No command provided".to_string()));
}

#[test]
fn print_the_version() {
    let mut db = Db::fresh();
    let out = run_cli(&mut db, &argv(&["todo", "--version"]), some_moment());
    assert_eq!(out.exit_code, 0);
    assert_eq!(format!("{}\n", out.output.unwrap()), "todo 0.1.0\n");
}
