use todo_cli::date::Date;
use todo_cli::date::DateFormatError;
use todo_cli::ops::TaskError;
use todo_cli::ops::add_task;
use todo_cli::ops::delete_task;
use todo_cli::ops::mark_task_done;
use todo_cli::query::list_tasks;
use todo_cli::query::search_tasks;
use todo_cli::storage::load_tasks;
use todo_cli::storage::save_tasks;
use todo_cli::task::Task;

fn sample(desc: &str, done: bool, due: Option<Date>) -> Task {
    let mut t = Task::new(String::from(desc), due);
    t.done = done;
    t
}

fn date(y: u32, m: u32, d: u32) -> Date {
    Date { year: y, month: m, day: d }
}

#[test]
fn round_trip_plain_tasks() {
    let tasks = vec![
        sample("buy milk", false, None),
        sample("call home", true, None),
    ];
    let text = save_tasks(&tasks);
    let back = load_tasks(&text);
    assert_eq!(back, tasks);
}

#[test]
fn round_trip_with_due_dates_and_escapes() {
    let tasks = vec![
        sample("say \"hi\" to C:\\Users", false, Some(date(2024, 2, 5))),
        sample("", true, None),
        sample("leap day", false, Some(date(2024, 2, 29))),
        sample("line\nbreak and tab\t", true, Some(date(9999, 12, 31))),
    ];
    let text = save_tasks(&tasks);
    let back = load_tasks(&text);
    assert_eq!(back, tasks);
}

#[test]
fn save_empty_collection_exact_text() {
    let tasks: Vec<Task> = Vec::new();
    assert_eq!(save_tasks(&tasks), "[]");
}

#[test]
fn save_one_task_exact_text() {
    let tasks = vec![sample("write report", false, Some(date(2024, 2, 5)))];
    assert_eq!(
        save_tasks(&tasks),
        "[{\"description\":\"write report\",\"done\":false,\"due_date\":\"2024-02-05\"}]"
    );
}

#[test]
fn save_undated_task_writes_null() {
    let tasks = vec![sample("rest", true, None)];
    assert_eq!(
        save_tasks(&tasks),
        "[{\"description\":\"rest\",\"done\":true,\"due_date\":null}]"
    );
}

#[test]
fn load_missing_or_garbage_yields_empty() {
    assert_eq!(load_tasks(""), Vec::<Task>::new());
    assert_eq!(load_tasks("not json at all"), Vec::<Task>::new());
    assert_eq!(load_tasks("[{\"description\":\"x\""), Vec::<Task>::new());
    assert_eq!(load_tasks("{}"), Vec::<Task>::new());
    assert_eq!(load_tasks("[]trailing"), Vec::<Task>::new());
    assert_eq!(
        load_tasks("[{\"description\":\"x\",\"done\":false,\"due_date\":\"2024-13-05\"}]"),
        Vec::<Task>::new()
    );
}

#[test]
fn load_reads_what_save_writes() {
    let text = "[{\"description\":\"a\",\"done\":false,\"due_date\":null},{\"description\":\"b\",\"done\":true,\"due_date\":\"2023-12-31\"}]";
    let back = load_tasks(text);
    assert_eq!(back.len(), 2);
    assert_eq!(back[0].description, "a");
    assert!(!back[0].done);
    assert_eq!(back[0].due_date, None);
    assert_eq!(back[1].description, "b");
    assert!(back[1].done);
    assert_eq!(back[1].due_date, Some(date(2023, 12, 31)));
}

#[test]
fn parse_date_rejects_invalid_calendar_date() {
    assert_eq!(Task::parse_date("2024-02-30"), Err(DateFormatError));
}

#[test]
fn parse_date_rejects_wrong_digit_width() {
    assert_eq!(Task::parse_date("2024-2-5"), Err(DateFormatError));
}

#[test]
fn parse_date_accepts_iso_date() {
    assert_eq!(Task::parse_date("2024-02-05"), Ok(date(2024, 2, 5)));
}

#[test]
fn parse_date_more_shapes() {
    assert_eq!(Task::parse_date(""), Err(DateFormatError));
    assert_eq!(Task::parse_date("2024/02/05"), Err(DateFormatError));
    assert_eq!(Task::parse_date("2024-00-05"), Err(DateFormatError));
    assert_eq!(Task::parse_date("2024-12-00"), Err(DateFormatError));
    assert_eq!(Task::parse_date("2023-02-29"), Err(DateFormatError));
    assert_eq!(Task::parse_date("2024-02-29"), Ok(date(2024, 2, 29)));
    assert_eq!(Task::parse_date("2000-02-29"), Ok(date(2000, 2, 29)));
    assert_eq!(Task::parse_date("1900-02-29"), Err(DateFormatError));
    assert_eq!(Task::parse_date("2024-02-055"), Err(DateFormatError));
}

#[test]
fn list_keeps_append_order_without_due_dates() {
    let mut tasks: Vec<Task> = Vec::new();
    add_task(&mut tasks, String::from("one"), None);
    add_task(&mut tasks, String::from("two"), None);
    add_task(&mut tasks, String::from("three"), None);
    let records = list_tasks(&tasks);
    assert_eq!(records.len(), 3);
    assert_eq!(records[0].index, 1);
    assert_eq!(records[0].description, "one");
    assert_eq!(records[1].index, 2);
    assert_eq!(records[1].description, "two");
    assert_eq!(records[2].index, 3);
    assert_eq!(records[2].description, "three");
}

#[test]
fn list_sorts_dated_before_undated_keeping_original_indices() {
    let tasks = vec![
        sample("no date", false, None),
        sample("later", false, Some(date(2025, 6, 1))),
        sample("sooner", true, Some(date(2024, 1, 15))),
        sample("also no date", false, None),
    ];
    let records = list_tasks(&tasks);
    assert_eq!(records.len(), 4);
    assert_eq!(records[0].description, "sooner");
    assert_eq!(records[0].index, 3);
    assert!(records[0].done);
    assert_eq!(records[1].description, "later");
    assert_eq!(records[1].index, 2);
    assert_eq!(records[2].description, "no date");
    assert_eq!(records[2].index, 1);
    assert_eq!(records[3].description, "also no date");
    assert_eq!(records[3].index, 4);
}

#[test]
fn list_ties_keep_collection_order() {
    let tasks = vec![
        sample("first", false, Some(date(2024, 3, 3))),
        sample("second", false, Some(date(2024, 3, 3))),
    ];
    let records = list_tasks(&tasks);
    assert_eq!(records[0].description, "first");
    assert_eq!(records[0].index, 1);
    assert_eq!(records[1].description, "second");
    assert_eq!(records[1].index, 2);
}

#[test]
fn done_out_of_range_changes_nothing() {
    let mut tasks = vec![sample("a", false, None), sample("b", false, None)];
    let before = tasks.clone();
    let r = mark_task_done(&mut tasks, 3);
    assert_eq!(r, Err(TaskError::IndexOutOfRange));
    assert_eq!(tasks, before);
}

#[test]
fn done_zero_is_out_of_range() {
    let mut tasks = vec![sample("a", false, None)];
    let before = tasks.clone();
    let r = mark_task_done(&mut tasks, 0);
    assert_eq!(r, Err(TaskError::IndexOutOfRange));
    assert_eq!(tasks, before);
}

#[test]
fn done_marks_exactly_the_given_position() {
    let mut tasks = vec![sample("a", false, None), sample("b", false, None)];
    let r = mark_task_done(&mut tasks, 2);
    assert_eq!(r, Ok(()));
    assert!(!tasks[0].done);
    assert!(tasks[1].done);
}

#[test]
fn delete_first_shifts_remaining_tasks() {
    let mut tasks = vec![
        sample("a", false, None),
        sample("b", true, None),
        sample("c", false, None),
    ];
    let r = delete_task(&mut tasks, 1);
    assert_eq!(r, Ok(()));
    assert_eq!(tasks.len(), 2);
    assert_eq!(tasks[0].description, "b");
    assert_eq!(tasks[1].description, "c");
    let records = list_tasks(&tasks);
    assert_eq!(records[0].index, 1);
    assert_eq!(records[1].index, 2);
}

#[test]
fn delete_out_of_range_changes_nothing() {
    let mut tasks = vec![sample("a", false, None)];
    let before = tasks.clone();
    assert_eq!(delete_task(&mut tasks, 2), Err(TaskError::IndexOutOfRange));
    assert_eq!(delete_task(&mut tasks, 0), Err(TaskError::IndexOutOfRange));
    assert_eq!(tasks, before);
}

#[test]
fn search_is_case_insensitive() {
    let tasks = vec![
        sample("Meeting with team", false, None),
        sample("buy milk", false, None),
    ];
    let hits = search_tasks(&tasks, "MEET");
    assert_eq!(hits.len(), 1);
    assert_eq!(hits[0].index, 1);
    assert_eq!(hits[0].task.description, "Meeting with team");
}

#[test]
fn search_without_match_is_empty() {
    let tasks = vec![sample("Meeting with team", false, None)];
    let hits = search_tasks(&tasks, "groceries");
    assert_eq!(hits.len(), 0);
}

#[test]
fn search_keeps_collection_order_and_indices() {
    let tasks = vec![
        sample("pay rent", false, None),
        sample("walk dog", true, None),
        sample("pay taxes", false, None),
    ];
    let hits = search_tasks(&tasks, "PAY");
    assert_eq!(hits.len(), 2);
    assert_eq!(hits[0].index, 1);
    assert_eq!(hits[0].task.description, "pay rent");
    assert_eq!(hits[1].index, 3);
    assert_eq!(hits[1].task.description, "pay taxes");
}

#[test]
fn add_task_appends_not_done() {
    let mut tasks: Vec<Task> = Vec::new();
    add_task(&mut tasks, String::from("new thing"), Some(date(2024, 5, 5)));
    assert_eq!(tasks.len(), 1);
    assert_eq!(tasks[0].description, "new thing");
    assert!(!tasks[0].done);
    assert_eq!(tasks[0].due_date, Some(date(2024, 5, 5)));
}

#[test]
fn round_trip_description_that_mimics_the_format() {
    let tasks = vec![
        sample("x\",\"done\":true,\"due_date\":null}", false, None),
        sample("\\\"", true, Some(date(2024, 1, 1))),
        sample("[]", false, None),
    ];
    let back = load_tasks(&save_tasks(&tasks));
    assert_eq!(back, tasks);
}

#[test]
fn list_and_search_on_empty_collection() {
    let tasks: Vec<Task> = Vec::new();
    assert_eq!(list_tasks(&tasks).len(), 0);
    assert_eq!(search_tasks(&tasks, "anything").len(), 0);
}

#[test]
fn search_empty_keyword_matches_every_task() {
    let tasks = vec![sample("a", false, None), sample("b", true, None)];
    let hits = search_tasks(&tasks, "");
    assert_eq!(hits.len(), 2);
}

#[test]
fn mutate_then_round_trip() {
    let mut tasks: Vec<Task> = Vec::new();
    add_task(&mut tasks, String::from("a"), None);
    add_task(&mut tasks, String::from("b"), Some(date(2024, 7, 1)));
    add_task(&mut tasks, String::from("c"), None);
    mark_task_done(&mut tasks, 2).unwrap();
    delete_task(&mut tasks, 1).unwrap();
    let back = load_tasks(&save_tasks(&tasks));
    assert_eq!(back, tasks);
}
