use daybook::{AppError, RecordStore};

// 2024-01-15T10:00:00Z
const TS_JAN15_10: i64 = 1705312800;
// 2024-01-15T09:00:00Z
const TS_JAN15_09: i64 = 1705309200;
// 2024-01-16T08:00:00Z
const TS_JAN16_08: i64 = 1705392000;

#[test]
fn add_idea_derives_calendar_date() {
    let mut store = RecordStore::new();
    let id = store
        .add_idea("buy milk".to_string(), vec![], TS_JAN15_10)
        .unwrap();
    assert_eq!(id, 1);
    let records = store.get_records_by_date_range(&"2024-01-15".to_string(), &"2024-01-15".to_string());
    assert_eq!(records.ideas.len(), 1);
    assert_eq!(records.ideas[0].date, "2024-01-15");
}

#[test]
fn add_idea_epoch_and_negative_dates() {
    let mut store = RecordStore::new();
    store.add_idea("epoch".to_string(), vec![], 0).unwrap();
    store.add_idea("before epoch".to_string(), vec![], -1).unwrap();
    let records = store.get_records_by_date_range(&"1969-12-31".to_string(), &"1970-01-01".to_string());
    assert_eq!(records.ideas.len(), 2);
    assert_eq!(records.ideas[0].date, "1970-01-01");
    assert_eq!(records.ideas[1].date, "1969-12-31");
}

#[test]
fn add_idea_rejects_out_of_range_timestamp() {
    let mut store = RecordStore::new();
    let r = store.add_idea("too far".to_string(), vec![], i64::MIN);
    assert_eq!(r, Err(AppError::InvalidTimestamp));
    let r2 = store.add_idea("too far again".to_string(), vec![], i64::MAX);
    assert_eq!(r2, Err(AppError::InvalidTimestamp));
}

#[test]
fn range_query_returns_one_idea_with_content() {
    let mut store = RecordStore::new();
    store
        .add_idea("buy milk".to_string(), vec![], TS_JAN15_10)
        .unwrap();
    let records = store.get_records_by_date_range(&"2024-01-15".to_string(), &"2024-01-15".to_string());
    assert_eq!(records.ideas.len(), 1);
    assert_eq!(records.ideas[0].content, "buy milk");
    assert_eq!(records.ideas[0].date, "2024-01-15");
    assert_eq!(records.tasks.len(), 0);
}

#[test]
fn range_query_is_inclusive_and_ordered() {
    let mut store = RecordStore::new();
    store.add_idea("a".to_string(), vec![], TS_JAN15_09).unwrap();
    store.add_idea("b".to_string(), vec![], TS_JAN15_10).unwrap();
    store.add_idea("c".to_string(), vec![], TS_JAN16_08).unwrap();
    store.add_idea("outside".to_string(), vec![], 0).unwrap();
    let records = store.get_records_by_date_range(&"2024-01-15".to_string(), &"2024-01-16".to_string());
    // date descending, then created_at descending
    assert_eq!(records.ideas.len(), 3);
    assert_eq!(records.ideas[0].content, "c");
    assert_eq!(records.ideas[1].content, "b");
    assert_eq!(records.ideas[2].content, "a");
}

#[test]
fn range_query_inverted_bounds_is_empty() {
    let mut store = RecordStore::new();
    store.add_idea("x".to_string(), vec![], TS_JAN15_10).unwrap();
    store
        .add_done_task("y".to_string(), TS_JAN15_09, TS_JAN15_10, vec![], TS_JAN15_10)
        .unwrap();
    let records = store.get_records_by_date_range(&"2024-01-16".to_string(), &"2024-01-15".to_string());
    assert_eq!(records.ideas.len(), 0);
    assert_eq!(records.tasks.len(), 0);
}

#[test]
fn day_query_orders_ideas_desc_tasks_asc() {
    let mut store = RecordStore::new();
    store.add_idea("early".to_string(), vec![], TS_JAN15_09).unwrap();
    store.add_idea("late".to_string(), vec![], TS_JAN15_10).unwrap();
    store
        .add_done_task("second".to_string(), TS_JAN15_10, TS_JAN15_10 + 600, vec![], TS_JAN15_10)
        .unwrap();
    store
        .add_done_task("first".to_string(), TS_JAN15_09, TS_JAN15_10, vec![], TS_JAN15_10)
        .unwrap();
    store.add_idea("other day".to_string(), vec![], TS_JAN16_08).unwrap();
    let records = store.get_records_for_date(&"2024-01-15".to_string());
    assert_eq!(records.ideas.len(), 2);
    assert_eq!(records.ideas[0].content, "late");
    assert_eq!(records.ideas[1].content, "early");
    assert_eq!(records.tasks.len(), 2);
    assert_eq!(records.tasks[0].content, "first");
    assert_eq!(records.tasks[1].content, "second");
}

#[test]
fn delete_missing_id_is_silent_noop() {
    let mut store = RecordStore::new();
    store.add_idea("keep me".to_string(), vec![], TS_JAN15_10).unwrap();
    assert_eq!(store.delete_idea(999), Ok(()));
    assert_eq!(store.delete_task(999), Ok(()));
    let records = store.get_records_by_date_range(&"2024-01-15".to_string(), &"2024-01-15".to_string());
    assert_eq!(records.ideas.len(), 1);
}

#[test]
fn delete_twice_equals_delete_once() {
    let mut store = RecordStore::new();
    let id = store.add_idea("gone".to_string(), vec![], TS_JAN15_10).unwrap();
    store.add_idea("stays".to_string(), vec![], TS_JAN15_10).unwrap();
    assert_eq!(store.delete_idea(id), Ok(()));
    assert_eq!(store.delete_idea(id), Ok(()));
    let records = store.get_records_by_date_range(&"2024-01-15".to_string(), &"2024-01-15".to_string());
    assert_eq!(records.ideas.len(), 1);
    assert_eq!(records.ideas[0].content, "stays");
}

#[test]
fn attachments_round_trip_through_store() {
    let mut store = RecordStore::new();
    let attachments = vec![
        "/tmp/photo 1.png".to_string(),
        "with \"quotes\" and \\backslash".to_string(),
        "newline\nand tab\t".to_string(),
        String::new(),
    ];
    store
        .add_idea("with files".to_string(), attachments.clone(), TS_JAN15_09)
        .unwrap();
    store.add_idea("no files".to_string(), vec![], TS_JAN15_10).unwrap();
    let records = store.get_records_for_date(&"2024-01-15".to_string());
    assert_eq!(records.ideas.len(), 2);
    assert_eq!(records.ideas[1].attachments, attachments);
    assert_eq!(records.ideas[0].attachments, Vec::<String>::new());
}

#[test]
fn task_end_before_start_is_stored_as_given() {
    let mut store = RecordStore::new();
    store
        .add_done_task("reversed".to_string(), TS_JAN15_10, TS_JAN15_09, vec![], TS_JAN15_10)
        .unwrap();
    let records = store.get_records_for_date(&"2024-01-15".to_string());
    assert_eq!(records.tasks.len(), 1);
    assert_eq!(records.tasks[0].start_time, TS_JAN15_10);
    assert_eq!(records.tasks[0].end_time, TS_JAN15_09);
}

#[test]
fn task_date_derives_from_start_time() {
    let mut store = RecordStore::new();
    store
        .add_done_task("spans".to_string(), TS_JAN15_10, TS_JAN16_08, vec![], TS_JAN16_08)
        .unwrap();
    let records = store.get_records_for_date(&"2024-01-15".to_string());
    assert_eq!(records.tasks.len(), 1);
    assert_eq!(records.tasks[0].date, "2024-01-15");
}

#[test]
fn row_reconstruction_defaults_missing_fields() {
    let idea = daybook::idea_from_row(daybook::RawIdeaRow {
        id: None,
        content: None,
        attachments: None,
        created_at: None,
        date: None,
    });
    assert_eq!(idea.id, 0);
    assert_eq!(idea.content, "");
    assert_eq!(idea.attachments, Vec::<String>::new());
    assert_eq!(idea.created_at, 0);
    assert_eq!(idea.date, "");

    let task = daybook::task_from_row(daybook::RawTaskRow {
        id: None,
        content: None,
        start_time: None,
        end_time: None,
        attachments: None,
        created_at: None,
        date: None,
    });
    assert_eq!(task.id, 0);
    assert_eq!(task.start_time, 0);
    assert_eq!(task.end_time, 0);

    let prompt = daybook::prompt_from_row(daybook::RawPromptRow {
        id: None,
        name: None,
        content: None,
        created_at: None,
        updated_at: None,
    });
    assert_eq!(prompt.id, 0);
    assert_eq!(prompt.name, "");
    assert_eq!(prompt.updated_at, 0);
}

#[test]
fn row_reconstruction_tolerates_malformed_attachments() {
    let broken = daybook::idea_from_row(daybook::RawIdeaRow {
        id: Some(7),
        content: Some("kept".to_string()),
        attachments: Some("not a json array".to_string()),
        created_at: Some(5),
        date: Some("2024-01-15".to_string()),
    });
    assert_eq!(broken.id, 7);
    assert_eq!(broken.content, "kept");
    assert_eq!(broken.attachments, Vec::<String>::new());

    let good = daybook::idea_from_row(daybook::RawIdeaRow {
        id: Some(8),
        content: Some("fine".to_string()),
        attachments: Some("[\"a\",\"b\"]".to_string()),
        created_at: Some(6),
        date: Some("2024-01-15".to_string()),
    });
    assert_eq!(good.attachments, vec!["a".to_string(), "b".to_string()]);
}

#[test]
fn today_records_on_empty_store_is_empty() {
    let store = RecordStore::new();
    let records = store.get_today_records();
    assert!(records.ideas.is_empty());
    assert!(records.tasks.is_empty());
}

#[test]
fn timestamp_bounds_are_exact() {
    let mut store = RecordStore::new();
    assert!(store
        .add_idea("last second".to_string(), vec![], daybook::TIMESTAMP_MAX)
        .is_ok());
    assert!(store
        .add_idea("first second".to_string(), vec![], daybook::TIMESTAMP_MIN)
        .is_ok());
    assert_eq!(
        store.add_idea("beyond".to_string(), vec![], daybook::TIMESTAMP_MAX + 1),
        Err(AppError::InvalidTimestamp)
    );
    assert_eq!(
        store.add_idea("before".to_string(), vec![], daybook::TIMESTAMP_MIN - 1),
        Err(AppError::InvalidTimestamp)
    );
}
