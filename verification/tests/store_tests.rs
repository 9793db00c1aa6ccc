use taskstore::store::{StoreError, TaskHandler};
use taskstore::task::Task;
use taskstore::time::Timestamp;

fn ts(year: u32, month: u8, day: u8, hour: u8, minute: u8, second: u8) -> Timestamp {
    Timestamp::new(year, month, day, hour, minute, second, 0).unwrap()
}

fn handler() -> TaskHandler {
    TaskHandler::new("test.csv".to_owned())
}

#[test]
fn empty_text_is_empty_store() {
    let h = handler();
    let tasks = h.read("").unwrap();
    assert_eq!(tasks.len(), 0);
}

#[test]
fn read_is_idempotent() {
    let h = handler();
    let text = h
        .write("", Task::new(3, "water plants".to_owned(), ts(2024, 6, 1, 12, 0, 0), false))
        .unwrap();
    let first = h.read(&text).unwrap();
    let second = h.read(&text).unwrap();
    assert_eq!(first.len(), second.len());
    for (a, b) in first.iter().zip(second.iter()) {
        assert_eq!(a.id, b.id);
        assert_eq!(a.name, b.name);
        assert_eq!(a.due, b.due);
        assert_eq!(a.completed, b.completed);
    }
}

#[test]
fn write_to_empty_store() {
    let h = handler();
    let text = h
        .write("", Task::new(0, "buy milk".to_owned(), ts(2024, 1, 1, 0, 0, 0), false))
        .unwrap();
    assert_eq!(
        text,
        "id,name,due,completed\n0,buy milk,2024-01-01T00:00:00Z,false\n"
    );
    let tasks = h.read(&text).unwrap();
    assert_eq!(tasks.len(), 1);
    assert_eq!(tasks[0].id, 0);
    assert_eq!(tasks[0].name, "buy milk");
    assert_eq!(tasks[0].due, ts(2024, 1, 1, 0, 0, 0));
    assert!(!tasks[0].completed);
}

#[test]
fn second_write_with_taken_id_gets_id_one() {
    let h = handler();
    let text = h
        .write("", Task::new(0, "first".to_owned(), ts(2024, 1, 1, 0, 0, 0), false))
        .unwrap();
    let text = h
        .write(&text, Task::new(0, "second".to_owned(), ts(2024, 2, 2, 8, 30, 0), false))
        .unwrap();
    let tasks = h.read(&text).unwrap();
    assert_eq!(tasks.len(), 2);
    assert_eq!(tasks[0].id, 0);
    assert_eq!(tasks[0].name, "first");
    assert_eq!(tasks[1].id, 1);
    assert_eq!(tasks[1].name, "second");
}

#[test]
fn collision_reassigns_to_prior_count() {
    let h = handler();
    let mut text = String::new();
    for i in 0..4u32 {
        text = h
            .write(&text, Task::new(i, format!("task {i}"), ts(2024, 3, 1, 0, 0, 0), false))
            .unwrap();
    }
    // id 2 is taken by the third task, so the candidate is stored with
    // the prior count, 4.
    text = h
        .write(&text, Task::new(2, "clash".to_owned(), ts(2024, 3, 2, 0, 0, 0), true))
        .unwrap();
    let tasks = h.read(&text).unwrap();
    assert_eq!(tasks.len(), 5);
    assert_eq!(tasks[4].id, 4);
    assert_eq!(tasks[4].name, "clash");
    assert!(tasks[4].completed);
}

#[test]
fn distinct_id_is_kept() {
    let h = handler();
    let text = h
        .write("", Task::new(7, "seven".to_owned(), ts(2024, 1, 1, 0, 0, 0), true))
        .unwrap();
    let tasks = h.read(&text).unwrap();
    assert_eq!(tasks.len(), 1);
    assert_eq!(tasks[0].id, 7);
    assert!(tasks[0].completed);
}

#[test]
fn round_trip_keeps_order_and_fields() {
    let h = handler();
    let written = vec![
        Task::new(0, "plain".to_owned(), ts(2023, 12, 31, 23, 59, 59), false),
        Task::new(1, "comma, quote \" and\nnewline".to_owned(), ts(2024, 2, 29, 6, 7, 8), true),
        Task::new(2, "unicode \u{e9}\u{4e16}".to_owned(), ts(0, 1, 1, 0, 0, 0), false),
        Task::new(3, "".to_owned(), ts(9999, 12, 31, 23, 59, 59), true),
        Task::new(4, "\u{feff}mark".to_owned(), ts(2024, 7, 1, 1, 2, 3), false),
    ];
    let mut text = String::new();
    for t in &written {
        text = h
            .write(&text, Task::new(t.id, t.name.clone(), t.due, t.completed))
            .unwrap();
    }
    let tasks = h.read(&text).unwrap();
    assert_eq!(tasks.len(), written.len());
    for (got, want) in tasks.iter().zip(written.iter()) {
        assert_eq!(got.id, want.id);
        assert_eq!(got.name, want.name);
        assert_eq!(got.due, want.due);
        assert_eq!(got.completed, want.completed);
    }
}

#[test]
fn due_date_with_offset_is_normalized_to_utc() {
    let h = handler();
    let text = "id,name,due,completed\n0,tea,2024-01-01T05:30:00+05:30,false\n";
    let tasks = h.read(text).unwrap();
    assert_eq!(tasks.len(), 1);
    assert_eq!(tasks[0].due, ts(2024, 1, 1, 0, 0, 0));
}

#[test]
fn fractional_seconds_round_trip() {
    let h = handler();
    let due = Timestamp::new(2024, 5, 6, 7, 8, 9, 123_000_000).unwrap();
    let text = h
        .write("", Task::new(0, "precise".to_owned(), due, false))
        .unwrap();
    assert!(text.contains("2024-05-06T07:08:09.123Z"));
    let tasks = h.read(&text).unwrap();
    assert_eq!(tasks[0].due, due);
}

#[test]
fn bad_records_are_decode_failures() {
    let h = handler();
    let cases = [
        // wrong header
        "task,name,due,completed\n0,a,2024-01-01T00:00:00Z,false\n",
        // header with too few fields
        "id,name,due\n",
        // record with too few fields
        "id,name,due,completed\n0,a,2024-01-01T00:00:00Z\n",
        // identifier is not a number
        "id,name,due,completed\nx,a,2024-01-01T00:00:00Z,false\n",
        // identifier does not fit 32 bits
        "id,name,due,completed\n4294967296,a,2024-01-01T00:00:00Z,false\n",
        // malformed timestamp
        "id,name,due,completed\n0,a,yesterday,false\n",
        // timestamp with an impossible day
        "id,name,due,completed\n0,a,2023-02-29T00:00:00Z,false\n",
        // completed is not a boolean word
        "id,name,due,completed\n0,a,2024-01-01T00:00:00Z,yes\n",
    ];
    for text in cases {
        assert_eq!(h.read(text).unwrap_err(), StoreError::DecodeFailure, "case: {text:?}");
    }
}

#[test]
fn leading_zero_ids_are_accepted() {
    let h = handler();
    let text = "id,name,due,completed\n007,bond".to_owned() + ",2024-01-01T00:00:00Z,true\n";
    let tasks = h.read(&text).unwrap();
    assert_eq!(tasks[0].id, 7);
}

#[test]
fn failed_write_reports_decode_failure() {
    let h = handler();
    let err = h
        .write("garbage,file\n", Task::new(0, "a".to_owned(), ts(2024, 1, 1, 0, 0, 0), false))
        .unwrap_err();
    assert_eq!(err, StoreError::DecodeFailure);
}

#[test]
fn handler_keeps_its_path() {
    let h = TaskHandler::new("somewhere/tasks.csv".to_owned());
    assert_eq!(h.path().as_str(), "somewhere/tasks.csv");
}
