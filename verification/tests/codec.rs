use taskmaster_rs::color::Color;
use taskmaster_rs::date::{Date, Timestamp};
use taskmaster_rs::decode::TaskSeed;
use taskmaster_rs::lexer::{property_lines, PropertyLine};
use taskmaster_rs::parser::ParseFromFileError;
use taskmaster_rs::task::{Status, Task, TaskList};

const SAMPLE: &str = "BEGIN:VCALENDAR\nX-WR-CALNAME:T\nBEGIN:VTODO\nSUMMARY:Task 1\nPERCENT-COMPLETE:47\nPRIORITY:9\nSTATUS:NEEDS-ACTION\nDESCRIPTION:desc\\n\nEND:VTODO\nEND:VCALENDAR\n";

const FULL: &str = "BEGIN:VCALENDAR\nVERSION:2.0\nCALSCALE:GREGORIAN\nPRODID:-//taskmaster-rs//github.com//\nX-WR-CALNAME:test\nX-APPLE-CALENDAR-COLOR:#5382A3\nREFRESH-INTERVAL;VALUE=DURATION:PT4H\nX-PUBLISHED-TTL:PT4H\nBEGIN:VTODO\nUID:ae02186d-10ae-404f-a4c9-450e06ea77cf\nCREATED:20230801T151208\nLAST-MODIFIED:20240102T030405\nDTSTAMP:20240102T030405\nSUMMARY:Task 1\nDUE:20230825T000000\nPRIORITY:9\nPERCENT-COMPLETE:47\nSTATUS:NEEDS-ACTION\nDESCRIPTION:description\\n\nEND:VTODO\nEND:VCALENDAR\n";

fn at(year: i32, month: u32, day: u32, hour: u32, minute: u32, second: u32) -> Timestamp {
    Timestamp::new(Date::new(year, month, day).unwrap(), hour, minute, second, 0).unwrap()
}

fn sample_task() -> Task {
    Task {
        uuid: 0xae02186d_10ae_404f_a4c9_450e06ea77cf,
        summary: "Task 1".to_string(),
        completed: false,
        description: "description\n".to_string(),
        progress: 47,
        priority: 9,
        status: Status::NeedsAction,
        due: Date::new(2023, 8, 25),
        created: at(2023, 8, 1, 15, 12, 8),
    }
}

fn sample_list() -> TaskList {
    TaskList {
        name: "test".to_string(),
        tasks: vec![sample_task()],
        color: Color { red: 83, green: 130, blue: 163 },
    }
}

fn property(name: &str, value: &str) -> PropertyLine {
    PropertyLine::Property { name: name.to_string(), value: Some(value.to_string()) }
}

#[test]
fn decodes_a_calendar_with_one_task() {
    let list = TaskList::from_ical_file(SAMPLE).unwrap();
    assert_eq!(list.name, "T");
    assert_eq!(list.tasks.len(), 1);
    let task = &list.tasks[0];
    assert_eq!(task.summary, "Task 1");
    assert_eq!(task.progress, 47);
    assert_eq!(task.priority, 9);
    assert_eq!(task.status, Status::NeedsAction);
    assert!(!task.completed);
    assert_eq!(task.description, "desc\n");
    assert_eq!(task.due, None);
}

#[test]
fn decodes_every_field_of_a_full_file() {
    let list = TaskList::from_ical_file(FULL).unwrap();
    assert_eq!(list, sample_list());
}

#[test]
fn encodes_the_fixed_text() {
    let text = sample_list().to_ical_string_at(&at(2024, 1, 2, 3, 4, 5));
    assert_eq!(text, FULL);
}

#[test]
fn encodes_an_empty_list_line_by_line() {
    let list = TaskList { name: "n".to_string(), tasks: vec![], color: Color { red: 0, green: 10, blue: 255 } };
    let text = list.to_ical_string_at(&at(2024, 1, 2, 3, 4, 5));
    assert_eq!(
        text,
        "BEGIN:VCALENDAR\nVERSION:2.0\nCALSCALE:GREGORIAN\nPRODID:-//taskmaster-rs//github.com//\nX-WR-CALNAME:n\nX-APPLE-CALENDAR-COLOR:#000AFF\nREFRESH-INTERVAL;VALUE=DURATION:PT4H\nX-PUBLISHED-TTL:PT4H\nEND:VCALENDAR\n"
    );
}

#[test]
fn encoding_stamps_the_time_of_the_call() {
    let text = sample_list().to_ical_string();
    let stamped: Vec<&str> = text.lines().filter(|l| l.starts_with("DTSTAMP:")).collect();
    assert_eq!(stamped.len(), 1);
    assert_eq!(stamped[0].len(), "DTSTAMP:".len() + 15);
    assert!(text.starts_with("BEGIN:VCALENDAR\n"));
    assert!(text.ends_with("END:VTODO\nEND:VCALENDAR\n"));
}

#[test]
fn round_trip_gives_the_list_back() {
    let mut second = sample_task();
    second.uuid = 7;
    second.summary = "Second: with a colon".to_string();
    second.description = "line one\nline two".to_string();
    second.due = None;
    second.priority = 0;
    second.progress = 100;
    second.status = Status::Cancelled;
    let mut list = sample_list();
    list.tasks.push(second);
    let text = list.to_ical_string_at(&at(2024, 1, 2, 3, 4, 5));
    let back = TaskList::from_ical_file(&text).unwrap();
    assert_eq!(back, list);
}

#[test]
fn round_trip_cuts_the_time_of_creation_to_the_second() {
    let mut list = sample_list();
    list.tasks[0].created =
        Timestamp::new(Date::new(2023, 8, 1).unwrap(), 15, 12, 8, 123_456_789).unwrap();
    let back = TaskList::from_ical_file(&list.to_ical_string()).unwrap();
    assert_eq!(back.tasks[0].created, at(2023, 8, 1, 15, 12, 8));
}

#[test]
fn completed_mark_takes_precedence_over_status() {
    let mut list = sample_list();
    list.tasks[0].completed = true;
    list.tasks[0].status = Status::InProgress;
    let text = list.to_ical_string_at(&at(2024, 1, 2, 3, 4, 5));
    assert!(text.contains("\nSTATUS:COMPLETED\n"));
    assert!(!text.contains("IN-PROGRESS"));
    let back = TaskList::from_ical_file(&text).unwrap();
    assert_eq!(back.tasks[0].status, Status::Completed);
    assert!(back.tasks[0].completed);
}

#[test]
fn status_is_written_by_its_token() {
    let now = at(2024, 1, 2, 3, 4, 5);
    let mut list = sample_list();
    list.tasks[0].status = Status::InProgress;
    assert!(list.to_ical_string_at(&now).contains("\nSTATUS:IN-PROGRESS\n"));
    list.tasks[0].status = Status::NeedsAction;
    assert!(list.to_ical_string_at(&now).contains("\nSTATUS:NEEDS-ACTION\n"));
    list.tasks[0].status = Status::Completed;
    assert!(list.to_ical_string_at(&now).contains("\nSTATUS:COMPLETED\n"));
    list.tasks[0].status = Status::Cancelled;
    assert!(list.to_ical_string_at(&now).contains("\nSTATUS:CANCELLED\n"));
}

#[test]
fn status_completed_marks_the_task_completed() {
    let list = TaskList::from_ical_file(
        "BEGIN:VCALENDAR\nBEGIN:VTODO\nSTATUS:COMPLETED\nSTATUS:IN-PROGRESS\nEND:VTODO\nEND:VCALENDAR\n",
    )
    .unwrap();
    assert_eq!(list.tasks[0].status, Status::InProgress);
    assert!(list.tasks[0].completed);
    let list = TaskList::from_ical_file("BEGIN:VTODO\nSTATUS:CANCELLED\nEND:VTODO\n").unwrap();
    assert_eq!(list.tasks[0].status, Status::Cancelled);
    assert!(!list.tasks[0].completed);
}

#[test]
fn line_breaks_of_a_description_are_escaped_and_come_back() {
    let mut list = sample_list();
    list.tasks[0].description = "line one\nline two".to_string();
    let text = list.to_ical_string_at(&at(2024, 1, 2, 3, 4, 5));
    assert!(text.contains("\nDESCRIPTION:line one\\nline two\n"));
    let back = TaskList::from_ical_file(&text).unwrap();
    assert_eq!(back.tasks[0].description, "line one\nline two");
}

#[test]
fn zero_priority_and_progress_are_left_out() {
    let mut list = sample_list();
    list.tasks[0].priority = 0;
    let text = list.to_ical_string_at(&at(2024, 1, 2, 3, 4, 5));
    assert!(!text.contains("PRIORITY"));
    assert!(text.contains("\nPERCENT-COMPLETE:47\n"));
    assert_eq!(TaskList::from_ical_file(&text).unwrap().tasks[0].priority, 0);

    let mut list = sample_list();
    list.tasks[0].progress = 0;
    let text = list.to_ical_string_at(&at(2024, 1, 2, 3, 4, 5));
    assert!(!text.contains("PERCENT-COMPLETE"));
    assert!(text.contains("\nPRIORITY:9\n"));
    assert_eq!(TaskList::from_ical_file(&text).unwrap().tasks[0].progress, 0);
}

#[test]
fn absent_due_date_and_empty_description_are_left_out() {
    let mut list = sample_list();
    list.tasks[0].due = None;
    list.tasks[0].description = String::new();
    let text = list.to_ical_string_at(&at(2024, 1, 2, 3, 4, 5));
    assert!(!text.contains("DUE"));
    assert!(!text.contains("DESCRIPTION"));
    let back = TaskList::from_ical_file(&text).unwrap();
    assert_eq!(back.tasks[0].due, None);
    assert_eq!(back.tasks[0].description, "");
}

#[test]
fn line_without_colon_is_an_invalid_file() {
    let r = TaskList::from_ical_file("BEGIN:VCALENDAR\nGARBAGE\nEND:VCALENDAR\n");
    assert_eq!(r, Err(ParseFromFileError::InvalidFile));
}

#[test]
fn event_block_is_not_a_task_item() {
    let r = TaskList::from_ical_file("BEGIN:VCALENDAR\nBEGIN:VEVENT\nEND:VEVENT\nEND:VCALENDAR\n");
    assert_eq!(r, Err(ParseFromFileError::NonTaskItem));
}

#[test]
fn unreadable_priority_is_an_invalid_field() {
    let r = TaskList::from_ical_file("BEGIN:VCALENDAR\nBEGIN:VTODO\nPRIORITY:abc\nEND:VTODO\nEND:VCALENDAR\n");
    assert_eq!(r, Err(ParseFromFileError::InvalidField));
}

#[test]
fn each_unreadable_value_is_an_invalid_field() {
    for line in [
        "DUE:2023-08-25",
        "DUE:20231325T000000",
        "PRIORITY:256",
        "PRIORITY:-1",
        "PERCENT-COMPLETE:4x",
        "STATUS:DONE",
        "CREATED:yesterday",
    ] {
        let text = format!("BEGIN:VTODO\n{}\nEND:VTODO\n", line);
        assert_eq!(TaskList::from_ical_file(&text), Err(ParseFromFileError::InvalidField));
    }
}

#[test]
fn property_without_value_is_an_invalid_field() {
    let r = TaskList::from_ical_file("BEGIN:VCALENDAR\nBEGIN:VTODO\nSUMMARY:\nEND:VTODO\n");
    assert_eq!(r, Err(ParseFromFileError::InvalidField));
    let r = TaskList::from_ical_file("X-SOMETHING:\n");
    assert_eq!(r, Err(ParseFromFileError::InvalidField));
}

#[test]
fn task_property_outside_a_task_is_an_invalid_file() {
    let r = TaskList::from_ical_file("BEGIN:VCALENDAR\nSUMMARY:early\nBEGIN:VTODO\nEND:VTODO\n");
    assert_eq!(r, Err(ParseFromFileError::InvalidFile));
    let r = TaskList::from_ical_file("BEGIN:VTODO\nEND:VTODO\nSUMMARY:late\n");
    assert_eq!(r, Err(ParseFromFileError::InvalidFile));
    let r = TaskList::from_ical_file("PRIORITY:abc\n");
    assert_eq!(r, Err(ParseFromFileError::InvalidFile));
}

#[test]
fn first_failing_line_decides_the_error() {
    let r = TaskList::from_ical_file("BEGIN:VTODO\nPRIORITY:abc\nBEGIN:VEVENT\nGARBAGE\n");
    assert_eq!(r, Err(ParseFromFileError::InvalidField));
    let r = TaskList::from_ical_file("BEGIN:VEVENT\nGARBAGE\n");
    assert_eq!(r, Err(ParseFromFileError::NonTaskItem));
}

#[test]
fn unknown_properties_are_passed_over() {
    let list = TaskList::from_ical_file(
        "BEGIN:VCALENDAR\nX-FUTURE:1\nBEGIN:VTODO\nLOCATION:here\nSUMMARY:s\nEND:VTODO\nEND:VCALENDAR\n",
    )
    .unwrap();
    assert_eq!(list.tasks.len(), 1);
    assert_eq!(list.tasks[0].summary, "s");
}

#[test]
fn parameters_of_a_property_are_passed_over() {
    let list = TaskList::from_ical_file("BEGIN:VTODO\nSUMMARY;LANGUAGE=en:hello\nEND:VTODO\n").unwrap();
    assert_eq!(list.tasks[0].summary, "hello");
}

#[test]
fn unreadable_color_leaves_the_color() {
    let list = TaskList::from_ical_file("X-APPLE-CALENDAR-COLOR:#5382A3\nX-APPLE-CALENDAR-COLOR:blue\n").unwrap();
    assert_eq!(list.color, Color { red: 83, green: 130, blue: 163 });
    let list = TaskList::from_ical_file("X-APPLE-CALENDAR-COLOR:blue\n").unwrap();
    assert_eq!(list.color, TaskList::default().color);
}

#[test]
fn tasks_come_in_the_order_opened() {
    let list = TaskList::from_ical_file(
        "BEGIN:VTODO\nSUMMARY:a\nEND:VTODO\nBEGIN:VTODO\nSUMMARY:b\nEND:VTODO\nBEGIN:VTODO\nSUMMARY:c\n",
    )
    .unwrap();
    let names: Vec<&str> = list.tasks.iter().map(|t| t.summary.as_str()).collect();
    assert_eq!(names, vec!["a", "b", "c"]);
}

#[test]
fn later_name_overwrites_earlier_name() {
    let list = TaskList::from_ical_file("X-WR-CALNAME:one\nX-WR-CALNAME:two\n").unwrap();
    assert_eq!(list.name, "two");
    assert_eq!(TaskList::from_ical_file("").unwrap().name, "New list");
}

#[test]
fn due_keeps_the_date_and_drops_the_time() {
    let list = TaskList::from_ical_file("BEGIN:VTODO\nDUE:20230825T134501\nEND:VTODO\n").unwrap();
    assert_eq!(list.tasks[0].due, Date::new(2023, 8, 25));
}

#[test]
fn seeds_give_new_tasks_their_identity() {
    let lines = vec![
        property("BEGIN", "VTODO"),
        property("UID", "not a uuid"),
        property("END", "VTODO"),
        property("BEGIN", "VTODO"),
        property("UID", "ae02186d-10ae-404f-a4c9-450e06ea77cf"),
        property("CREATED", "20230801T151208"),
        property("END", "VTODO"),
    ];
    let seeds = vec![
        TaskSeed { uuid: 11, created: at(2020, 1, 1, 0, 0, 0) },
        TaskSeed { uuid: 22, created: at(2021, 1, 1, 0, 0, 0) },
    ];
    let list = TaskList::from_properties(&lines, &seeds).unwrap();
    assert_eq!(list.tasks.len(), 2);
    assert_eq!(list.tasks[0], Task::new(11, at(2020, 1, 1, 0, 0, 0)));
    assert_eq!(list.tasks[1].uuid, 0xae02186d_10ae_404f_a4c9_450e06ea77cf);
    assert_eq!(list.tasks[1].created, at(2023, 8, 1, 15, 12, 8));
    assert_eq!(list.tasks[1].summary, "New task");
    assert_eq!(list.tasks[1].status, Status::InProgress);
}

#[test]
fn malformed_line_and_missing_value_fail_from_properties() {
    let seeds: Vec<TaskSeed> = vec![];
    let lines = vec![property("X-WR-CALNAME", "x"), PropertyLine::Malformed];
    assert_eq!(TaskList::from_properties(&lines, &seeds), Err(ParseFromFileError::InvalidFile));
    let lines = vec![PropertyLine::Property { name: "END".to_string(), value: None }];
    assert_eq!(TaskList::from_properties(&lines, &seeds), Err(ParseFromFileError::InvalidField));
}

#[test]
fn lexer_yields_names_and_values_in_file_order() {
    let lines = property_lines("BEGIN:VCALENDAR\nSUMMARY;X=1:a:b\nEMPTY:\nnocolon\n");
    assert_eq!(
        lines,
        vec![
            property("BEGIN", "VCALENDAR"),
            property("SUMMARY", "a:b"),
            PropertyLine::Property { name: "EMPTY".to_string(), value: None },
            PropertyLine::Malformed,
        ]
    );
}

#[test]
fn fresh_tasks_differ_in_identity() {
    let list = TaskList::from_ical_file("BEGIN:VTODO\nEND:VTODO\nBEGIN:VTODO\nEND:VTODO\n").unwrap();
    assert_ne!(list.tasks[0].uuid, list.tasks[1].uuid);
}

#[test]
fn lines_may_end_in_carriage_return_and_line_feed() {
    let list = TaskList::from_ical_file(&SAMPLE.replace('\n', "\r\n")).unwrap();
    assert_eq!(list.name, "T");
    assert_eq!(list.tasks[0].summary, "Task 1");
    assert_eq!(list.tasks[0].description, "desc\n");
}

#[test]
fn folded_lines_are_joined_by_the_lexer() {
    let list = TaskList::from_ical_file("BEGIN:VTODO\nSUMMARY:one \n two\nEND:VTODO\n").unwrap();
    assert_eq!(list.tasks[0].summary, "onetwo");
}
