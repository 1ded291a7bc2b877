use todo::datetime::{format_dt, parse_dt, DateTime};
use todo::strutil::{join_commas, parse_u32, split_commas};
use todo::task::task_from_row;

fn dt(year: u32, month: u32, day: u32, hour: u32, minute: u32, second: u32) -> DateTime {
    DateTime { year, month, day, hour, minute, second }
}

#[test]
fn parse_cli_format_exact() {
    assert_eq!(parse_dt("2021-12-21T12:00:00", 'T'), Some(dt(2021, 12, 21, 12, 0, 0)));
    assert_eq!(parse_dt("0001-01-01T00:00:00", 'T'), Some(dt(1, 1, 1, 0, 0, 0)));
    assert_eq!(parse_dt("9999-12-31T23:59:59", 'T'), Some(dt(9999, 12, 31, 23, 59, 59)));
}

#[test]
fn parse_rejects_malformed_text() {
    assert_eq!(parse_dt("2021-12-21 12:00:00", 'T'), None);
    assert_eq!(parse_dt("2021-12-21T12:00", 'T'), None);
    assert_eq!(parse_dt("2021-12-21T12:00:0x", 'T'), None);
    assert_eq!(parse_dt("2021/12/21T12:00:00", 'T'), None);
    assert_eq!(parse_dt("", 'T'), None);
}

#[test]
fn parse_rejects_impossible_dates() {
    assert_eq!(parse_dt("2021-13-01T00:00:00", 'T'), None);
    assert_eq!(parse_dt("2021-00-01T00:00:00", 'T'), None);
    assert_eq!(parse_dt("2021-04-31T00:00:00", 'T'), None);
    assert_eq!(parse_dt("2021-02-29T00:00:00", 'T'), None);
    assert_eq!(parse_dt("2021-12-21T24:00:00", 'T'), None);
    assert_eq!(parse_dt("2021-12-21T12:60:00", 'T'), None);
    assert_eq!(parse_dt("2021-12-21T12:00:60", 'T'), None);
}

#[test]
fn leap_years_are_respected() {
    assert_eq!(parse_dt("2020-02-29T00:00:00", 'T'), Some(dt(2020, 2, 29, 0, 0, 0)));
    assert_eq!(parse_dt("2000-02-29T00:00:00", 'T'), Some(dt(2000, 2, 29, 0, 0, 0)));
    assert_eq!(parse_dt("1900-02-29T00:00:00", 'T'), None);
}

#[test]
fn format_storage_exact() {
    assert_eq!(format_dt(&dt(2021, 12, 21, 12, 0, 0), ' '), "2021-12-21 12:00:00".to_string());
    assert_eq!(format_dt(&dt(7, 3, 4, 5, 6, 9), ' '), "0007-03-04 05:06:09".to_string());
}

#[test]
fn due_round_trip_through_storage() {
    let texts = ["2021-12-21T12:00:00", "0001-01-01T00:00:00", "2020-02-29T23:59:59"];
    for text in texts {
        let parsed = parse_dt(text, 'T').unwrap();
        let stored = format_dt(&parsed, ' ');
        let read_back = parse_dt(stored.as_str(), ' ').unwrap();
        assert_eq!(read_back, parsed);
        assert_eq!(format_dt(&read_back, 'T'), text.to_string());
    }
}

#[test]
fn parse_u32_exact() {
    assert_eq!(parse_u32("0"), Some(0));
    assert_eq!(parse_u32("42"), Some(42));
    assert_eq!(parse_u32("+42"), Some(42));
    assert_eq!(parse_u32("0042"), Some(42));
    assert_eq!(parse_u32("4294967295"), Some(u32::MAX));
    assert_eq!(parse_u32("4294967296"), None);
    assert_eq!(parse_u32("99999999999"), None);
    assert_eq!(parse_u32(""), None);
    assert_eq!(parse_u32("+"), None);
    assert_eq!(parse_u32("-1"), None);
    assert_eq!(parse_u32("12a"), None);
}

#[test]
fn split_and_join_commas() {
    let parts = split_commas("home,urgent");
    assert_eq!(parts, vec!["home".to_string(), "urgent".to_string()]);
    assert_eq!(join_commas(&parts), "home,urgent".to_string());

    assert_eq!(split_commas(""), vec!["".to_string()]);
    assert_eq!(split_commas("a,,b"), vec!["a".to_string(), "".to_string(), "b".to_string()]);
    assert_eq!(join_commas(&Vec::new()), "".to_string());
}

#[test]
fn task_from_row_rebuilds_the_task() {
    let t = task_from_row(4, "task", "2021-12-21 12:00:00", "", "").unwrap();
    assert_eq!(t.id, 4);
    assert_eq!(t.name, "task".to_string());
    assert_eq!(t.due, dt(2021, 12, 21, 12, 0, 0));
    assert!(t.finished.is_none());
    assert_eq!(t.tags, Vec::<String>::new());

    let tagged = task_from_row(5, "other", "2021-12-21 12:00:00", "2021-12-30 08:05:09", "a,b")
        .unwrap();
    assert_eq!(tagged.finished, Some(dt(2021, 12, 30, 8, 5, 9)));
    assert_eq!(tagged.tags, vec!["a".to_string(), "b".to_string()]);

    assert!(task_from_row(6, "bad", "not a date", "", "").is_none());
}
