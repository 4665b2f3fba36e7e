use arg_todo::datetime::{CivilDateTime, DateParseError};
use arg_todo::store::{Removal, SaveFailure, Stored, TaskNotFound, ToDoApp};
use arg_todo::task::{decode_tasks, encode_tasks, RecordError, RecordFault, Task, TaskRecord};

fn dt(year: i16, month: i8, day: i8, hour: i8, minute: i8, second: i8) -> CivilDateTime {
    CivilDateTime { year, month, day, hour, minute, second }
}

fn record(id: u32, name: &str, date: &str, done: bool) -> TaskRecord {
    TaskRecord {
        id,
        name: name.to_string(),
        description: String::new(),
        date: date.to_string(),
        done,
    }
}

fn snapshot(app: &ToDoApp) -> Vec<(u32, String, String, String, bool)> {
    app.records()
        .into_iter()
        .map(|r| (r.id, r.name, r.description, r.date, r.done))
        .collect()
}

#[test]
fn load_missing_file_is_empty_without_error() {
    let app = ToDoApp::new(Stored::Missing);
    assert!(app.tasks.is_empty());
    assert!(app.error_message.is_empty());
}

#[test]
fn load_corrupt_file_is_empty_with_error() {
    let app = ToDoApp::new(Stored::Malformed);
    assert!(app.tasks.is_empty());
    assert!(!app.error_message.is_empty());
    assert_eq!(app.error_message, "Error loading task: the task file is malformed");
}

#[test]
fn load_bad_record_discards_whole_collection() {
    let rs = vec![
        record(1, "ok", "2024-03-01 09:00:00", false),
        record(2, "bad", "2024-13-01 09:00:00", false),
    ];
    let app = ToDoApp::new(Stored::Records(rs));
    assert!(app.tasks.is_empty());
    assert_eq!(app.error_message, "Error loading task: the task file is malformed");
}

#[test]
fn load_unreadable_file_reports_error() {
    let app = ToDoApp::new(Stored::Unreadable);
    assert!(app.tasks.is_empty());
    assert_eq!(app.error_message, "Error loading task");
}

#[test]
fn add_on_empty_store_gives_id_one_then_two() {
    let mut app = ToDoApp::new(Stored::Missing);
    assert!(app.add_task("Buy milk".to_string(), String::new(), None));
    assert_eq!(app.tasks.len(), 1);
    assert_eq!(app.tasks[0].id, 1);
    assert_eq!(app.tasks[0].name, "Buy milk");
    assert!(!app.tasks[0].done);
    assert!(app.tasks[0].date.is_valid());
    assert!(app.tasks[0].date.year >= 2020);
    assert!(app.add_task("Walk dog".to_string(), String::new(), None));
    assert_eq!(app.tasks.len(), 2);
    assert_eq!(app.tasks[1].id, 2);
}

#[test]
fn add_without_date_takes_now() {
    let mut app = ToDoApp::new(Stored::Missing);
    let now = dt(2025, 6, 30, 23, 59, 59);
    assert!(app.add_task_at("Buy milk".to_string(), "two litres".to_string(), None, now));
    assert_eq!(app.tasks[0].date, now);
    assert_eq!(app.tasks[0].description, "two litres");
    let given = dt(2024, 1, 2, 3, 4, 5);
    assert!(app.add_task_at("Later".to_string(), String::new(), Some(given), now));
    assert_eq!(app.tasks[1].date, given);
    assert_eq!(app.tasks[1].id, 2);
}

#[test]
fn toggle_unknown_id_changes_nothing() {
    let mut app = ToDoApp::new(Stored::Missing);
    let d = dt(2024, 3, 1, 9, 0, 0);
    assert!(app.add_task_at("a".to_string(), String::new(), Some(d), d));
    assert!(app.add_task_at("b".to_string(), String::new(), Some(d), d));
    let before = snapshot(&app);
    assert_eq!(app.toggle_done(7), Err(TaskNotFound { id: 7 }));
    assert_eq!(snapshot(&app), before);
    assert_eq!(app.toggle_done(0), Err(TaskNotFound { id: 0 }));
    assert_eq!(snapshot(&app), before);
}

#[test]
fn toggle_flips_task_with_id() {
    let rs = vec![
        record(1, "a", "2024-03-01 09:00:00", false),
        record(3, "b", "2024-03-01 09:00:00", false),
        record(5, "c", "2024-03-01 09:00:00", false),
    ];
    let mut app = ToDoApp::new(Stored::Records(rs));
    assert_eq!(app.toggle_done(3), Ok(()));
    assert!(!app.tasks[0].done);
    assert!(app.tasks[1].done);
    assert!(!app.tasks[2].done);
    assert_eq!(app.toggle_done(3), Ok(()));
    assert!(!app.tasks[1].done);
}

#[test]
fn clear_then_load_is_empty() {
    let mut app = ToDoApp::new(Stored::Missing);
    let d = dt(2024, 3, 1, 9, 0, 0);
    assert!(app.add_task_at("a".to_string(), String::new(), Some(d), d));
    assert!(app.finish_clear(Removal::Removed));
    assert!(app.tasks.is_empty());
    let reloaded = ToDoApp::new(Stored::Missing);
    assert!(reloaded.tasks.is_empty());
    assert!(reloaded.error_message.is_empty());
}

#[test]
fn clear_of_absent_file_succeeds() {
    let mut app = ToDoApp::new(Stored::Missing);
    assert!(app.finish_clear(Removal::Absent));
    assert!(app.tasks.is_empty());
    assert!(app.error_message.is_empty());
}

#[test]
fn clear_failure_keeps_tasks_and_reports() {
    let mut app = ToDoApp::new(Stored::Missing);
    let d = dt(2024, 3, 1, 9, 0, 0);
    assert!(app.add_task_at("a".to_string(), String::new(), Some(d), d));
    assert!(!app.finish_clear(Removal::Failed("permission denied".to_string())));
    assert_eq!(app.tasks.len(), 1);
    assert_eq!(app.error_message, "Error removing tasks permission denied");
}

#[test]
fn save_outcomes_set_error_message() {
    let mut app = ToDoApp::new(Stored::Missing);
    assert!(app.finish_save(Ok(())));
    assert!(app.error_message.is_empty());
    assert!(!app.finish_save(Err(SaveFailure::Write("disk full".to_string()))));
    assert_eq!(app.error_message, "Error saving tasks disk full");
    assert!(!app.finish_save(Err(SaveFailure::Serialize("bad".to_string()))));
    assert_eq!(app.error_message, "Error serializing tasks bad");
}

#[test]
fn save_then_load_round_trip() {
    let mut app = ToDoApp::new(Stored::Missing);
    assert!(app.add_task_at("first".to_string(), "x".to_string(), Some(dt(2024, 2, 29, 0, 0, 0)), dt(2000, 1, 1, 0, 0, 0)));
    assert!(app.add_task_at("second".to_string(), String::new(), None, dt(-44, 3, 15, 12, 30, 7)));
    assert!(app.add_task_at("third".to_string(), "y".to_string(), Some(dt(9999, 12, 31, 23, 59, 59)), dt(2000, 1, 1, 0, 0, 0)));
    assert_eq!(app.toggle_done(2), Ok(()));
    let saved = snapshot(&app);
    let reloaded = ToDoApp::new(Stored::Records(app.records()));
    assert!(reloaded.error_message.is_empty());
    assert_eq!(snapshot(&reloaded), saved);
    assert_eq!(reloaded.tasks[1].date, dt(-44, 3, 15, 12, 30, 7));
    assert!(reloaded.tasks[1].done);
}

#[test]
fn scenario_add_list_done_clean() {
    let mut app = ToDoApp::new(Stored::Missing);
    let date = CivilDateTime::parse("2024-03-01 09:00:00").unwrap();
    assert!(app.add_task("Write report".to_string(), String::new(), Some(date)));
    let rows = app.records();
    assert_eq!(rows.len(), 1);
    assert_eq!(rows[0].id, 1);
    assert!(!rows[0].done);
    assert_eq!(rows[0].date, "2024-03-01 09:00:00");
    assert_eq!(app.toggle_done(1), Ok(()));
    assert!(app.records()[0].done);
    assert!(app.finish_clear(Removal::Absent));
    assert!(app.records().is_empty());
}

#[test]
fn encode_writes_dates_as_text() {
    let t = Task {
        id: 4,
        name: "n".to_string(),
        description: "d".to_string(),
        date: dt(7, 1, 9, 5, 6, 7),
        done: true,
    };
    let rs = encode_tasks(&vec![t]);
    assert_eq!(rs[0].date, "0007-01-09 05:06:07");
    assert_eq!(rs[0].id, 4);
    assert!(rs[0].done);
}

#[test]
fn decode_reports_first_bad_record() {
    let rs = vec![
        record(1, "ok", "2024-03-01 09:00:00", false),
        record(0, "zero", "2024-03-01 09:00:00", false),
        record(3, "", "bad", false),
    ];
    assert_eq!(decode_tasks(&rs).unwrap_err(), RecordError { index: 1, fault: RecordFault::ZeroId });
    let rs = vec![record(1, "", "2024-03-01 09:00:00", false)];
    assert_eq!(decode_tasks(&rs).unwrap_err(), RecordError { index: 0, fault: RecordFault::EmptyName });
    let rs = vec![record(1, "a", "2024-03-01 09:00:00", false), record(2, "b", "2024-03-01T09:00:00", false)];
    assert_eq!(decode_tasks(&rs).unwrap_err(), RecordError { index: 1, fault: RecordFault::BadDate });
    assert!(decode_tasks(&Vec::new()).unwrap().is_empty());
}

#[test]
fn parse_and_format_fixed_layout() {
    let d = CivilDateTime::parse("2024-03-01 09:00:00").unwrap();
    assert_eq!(d, dt(2024, 3, 1, 9, 0, 0));
    assert_eq!(d.format(), "2024-03-01 09:00:00");
    let n = CivilDateTime::parse("-0044-03-15 12:30:07").unwrap();
    assert_eq!(n, dt(-44, 3, 15, 12, 30, 7));
    assert_eq!(n.format(), "-0044-03-15 12:30:07");
    assert_eq!(dt(0, 1, 1, 0, 0, 0).format(), "0000-01-01 00:00:00");
}

#[test]
fn parse_checks_calendar() {
    assert!(CivilDateTime::parse("2024-02-29 00:00:00").is_ok());
    assert!(CivilDateTime::parse("2000-02-29 00:00:00").is_ok());
    assert_eq!(CivilDateTime::parse("2023-02-29 00:00:00"), Err(DateParseError {}));
    assert_eq!(CivilDateTime::parse("1900-02-29 00:00:00"), Err(DateParseError {}));
    assert_eq!(CivilDateTime::parse("2024-04-31 00:00:00"), Err(DateParseError {}));
    assert_eq!(CivilDateTime::parse("2024-01-01 24:00:00"), Err(DateParseError {}));
    assert_eq!(CivilDateTime::parse("2024-01-01 23:60:00"), Err(DateParseError {}));
    assert_eq!(CivilDateTime::parse("2024-01-01 23:59:60"), Err(DateParseError {}));
    assert_eq!(CivilDateTime::parse("2024-00-01 00:00:00"), Err(DateParseError {}));
}

#[test]
fn parse_rejects_other_layouts() {
    assert!(CivilDateTime::parse("").is_err());
    assert!(CivilDateTime::parse("2024-03-01").is_err());
    assert!(CivilDateTime::parse("2024-03-01T09:00:00").is_err());
    assert!(CivilDateTime::parse("2024/03/01 09:00:00").is_err());
    assert!(CivilDateTime::parse("2024-3-01 09:00:00 ").is_err());
    assert!(CivilDateTime::parse(" 2024-03-01 09:00:00").is_err());
    assert!(CivilDateTime::parse("-0000-01-01 00:00:00").is_err());
    assert!(CivilDateTime::parse("+2024-03-01 09:00:00").is_err());
    assert!(CivilDateTime::parse("2024-03-01 09:00:0x").is_err());
}

#[test]
fn validity_of_fields() {
    assert!(dt(-9999, 1, 1, 0, 0, 0).is_valid());
    assert!(!dt(-10000, 1, 1, 0, 0, 0).is_valid());
    assert!(!dt(2024, 6, 31, 0, 0, 0).is_valid());
    assert!(dt(2024, 12, 31, 23, 59, 59).is_valid());
    assert!(!dt(2024, 1, 0, 0, 0, 0).is_valid());
    assert!(!dt(2024, 1, 1, -1, 0, 0).is_valid());
    assert!(dt(-4, 2, 29, 0, 0, 0).is_valid());
    assert!(!dt(-100, 2, 29, 0, 0, 0).is_valid());
}

#[test]
fn load_duplicate_ids_is_malformed() {
    let rs = vec![
        record(1, "a", "2024-03-01 09:00:00", false),
        record(3, "b", "2024-03-01 09:00:00", false),
        record(3, "c", "2024-03-01 09:00:00", false),
    ];
    let app = ToDoApp::new(Stored::Records(rs));
    assert!(app.tasks.is_empty());
    assert_eq!(app.error_message, "Error loading task: the task file is malformed");
}

#[test]
fn added_id_is_above_every_id() {
    let rs = vec![record(5, "a", "2024-03-01 09:00:00", false)];
    let mut app = ToDoApp::new(Stored::Records(rs));
    assert_eq!(app.next_id(), Some(6));
    let d = dt(2024, 3, 1, 9, 0, 0);
    for _ in 0..4 {
        assert!(app.add_task_at("b".to_string(), String::new(), Some(d), d));
    }
    let ids: Vec<u32> = app.tasks.iter().map(|t| t.id).collect();
    assert_eq!(ids, vec![5, 6, 7, 8, 9]);
}

#[test]
fn no_id_left_adds_nothing() {
    let rs = vec![record(u32::MAX, "a", "2024-03-01 09:00:00", false)];
    let mut app = ToDoApp::new(Stored::Records(rs));
    assert_eq!(app.next_id(), None);
    let d = dt(2024, 3, 1, 9, 0, 0);
    assert!(!app.add_task_at("b".to_string(), String::new(), Some(d), d));
    assert!(!app.add_task("b".to_string(), String::new(), Some(d)));
    assert_eq!(app.tasks.len(), 1);
}
