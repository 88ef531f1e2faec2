use taskmaster_rs::color::{format_color, parse_color, Color};
use taskmaster_rs::date::{format_timestamp, parse_timestamp, Date, Timestamp};
use taskmaster_rs::decode::count_task_blocks;
use taskmaster_rs::ident::{format_id, parse_id};
use taskmaster_rs::lexer::property_lines;
use taskmaster_rs::task::{Status, Task, TaskList, TaskSort};
use taskmaster_rs::text::{byte_text, chars_of, escape, parse_byte, same, string_of, unescape};

fn at(year: i32, month: u32, day: u32, hour: u32, minute: u32, second: u32) -> Timestamp {
    Timestamp::new(Date::new(year, month, day).unwrap(), hour, minute, second, 0).unwrap()
}

fn task(summary: &str) -> Task {
    let mut t = Task::new(1, at(2023, 1, 1, 0, 0, 0));
    t.summary = summary.to_string();
    t
}

fn summaries(list: &TaskList) -> Vec<String> {
    list.tasks.iter().map(|t| t.summary.clone()).collect()
}

fn list_of(tasks: Vec<Task>) -> TaskList {
    let mut list = TaskList::default();
    for t in tasks {
        list.add(t);
    }
    list
}

#[test]
fn sorting_by_due_puts_dates_first_and_early_dates_before_late() {
    let mut a = task("25th");
    a.due = Date::new(2023, 8, 25);
    let mut b = task("20th");
    b.due = Date::new(2023, 8, 20);
    let c = task("none");
    let mut list = list_of(vec![a, b, c]);
    list.sort(TaskSort::Due);
    assert_eq!(summaries(&list), vec!["20th", "25th", "none"]);
    let dues: Vec<Option<Date>> = list.tasks.iter().map(|t| t.due).collect();
    assert_eq!(dues, vec![Date::new(2023, 8, 20), Date::new(2023, 8, 25), None]);
}

#[test]
fn sorting_by_due_orders_by_year_then_month_then_day() {
    let mut tasks = vec![];
    for (name, y, m, d) in [("c", 2024, 1, 1), ("none", 0, 0, 0), ("a", 2023, 12, 31), ("b", 2023, 12, 31), ("z", -5, 6, 1)] {
        let mut t = task(name);
        t.due = Date::new(y, m, d);
        tasks.push(t);
    }
    let mut list = list_of(tasks);
    list.sort(TaskSort::Due);
    assert_eq!(summaries(&list), vec!["z", "a", "b", "c", "none"]);
}

#[test]
fn sorting_by_summary_ignores_case() {
    let mut list = list_of(vec![task("banana"), task("Cherry"), task("apple"), task("Apple pie"), task("")]);
    list.sort(TaskSort::Summary);
    assert_eq!(summaries(&list), vec!["", "apple", "Apple pie", "banana", "Cherry"]);
}

#[test]
fn sorting_by_description_ignores_case() {
    let mut a = task("a");
    a.description = "Zebra".to_string();
    let mut b = task("b");
    b.description = "apple".to_string();
    let mut list = list_of(vec![a, b]);
    list.sort(TaskSort::Description);
    assert_eq!(summaries(&list), vec!["b", "a"]);
}

#[test]
fn sorting_keeps_the_order_of_equal_keys() {
    let mut tasks = vec![];
    for (name, priority) in [("a", 5u8), ("b", 1), ("c", 5), ("d", 1), ("e", 3), ("B", 1)] {
        let mut t = task(name);
        t.priority = priority;
        tasks.push(t);
    }
    let mut list = list_of(tasks);
    list.sort(TaskSort::Priority);
    assert_eq!(summaries(&list), vec!["b", "d", "B", "e", "a", "c"]);
    list.sort(TaskSort::Summary);
    assert_eq!(summaries(&list), vec!["a", "b", "B", "c", "d", "e"]);
}

#[test]
fn sorting_by_completed_puts_open_tasks_first() {
    let mut a = task("done");
    a.completed = true;
    let b = task("open");
    let mut c = task("done too");
    c.completed = true;
    let mut list = list_of(vec![a, b, c]);
    list.sort(TaskSort::Completed);
    assert_eq!(summaries(&list), vec!["open", "done", "done too"]);
}

#[test]
fn sorting_by_progress_is_numeric() {
    let mut tasks = vec![];
    for p in [100u8, 9, 47, 0] {
        let mut t = task(&p.to_string());
        t.progress = p;
        tasks.push(t);
    }
    let mut list = list_of(tasks);
    list.sort(TaskSort::Progress);
    assert_eq!(summaries(&list), vec!["0", "9", "47", "100"]);
}

#[test]
fn sorting_by_status_follows_the_order_of_the_variants() {
    let mut tasks = vec![];
    for (name, status) in [
        ("cancelled", Status::Cancelled),
        ("completed", Status::Completed),
        ("in progress", Status::InProgress),
        ("needs action", Status::NeedsAction),
    ] {
        let mut t = task(name);
        t.status = status;
        tasks.push(t);
    }
    let mut list = list_of(tasks);
    list.sort(TaskSort::Status);
    assert_eq!(summaries(&list), vec!["needs action", "in progress", "completed", "cancelled"]);
}

#[test]
fn unsorted_leaves_the_list_as_it_is() {
    let mut list = list_of(vec![task("b"), task("a"), task("c")]);
    let before = list.clone();
    list.sort(TaskSort::Unsorted);
    assert_eq!(list, before);
    let mut empty = TaskList::default();
    empty.sort(TaskSort::Summary);
    assert_eq!(empty, TaskList::default());
}

#[test]
fn sorting_keeps_name_color_and_every_task() {
    let mut list = list_of(vec![task("b"), task("a"), task("c"), task("a")]);
    list.name = "mine".to_string();
    list.color = Color { red: 1, green: 2, blue: 3 };
    list.sort(TaskSort::Summary);
    assert_eq!(list.name, "mine");
    assert_eq!(list.color, Color { red: 1, green: 2, blue: 3 });
    assert_eq!(summaries(&list), vec!["a", "a", "b", "c"]);
}

#[test]
fn add_appends_to_the_end() {
    let mut list = TaskList::default();
    list.add(task("first"));
    list.add(task("second"));
    assert_eq!(summaries(&list), vec!["first", "second"]);
    assert_eq!(list.name, "New list");
}

#[test]
fn defaults_are_as_documented() {
    let list = TaskList::default();
    assert_eq!(list.name, "New list");
    assert!(list.tasks.is_empty());
    assert_eq!(list.color, Color { red: 0, green: 200, blue: 0 });
    let t = Task::default();
    assert_eq!(t.summary, "New task");
    assert!(!t.completed);
    assert_eq!(t.description, "");
    assert_eq!(t.progress, 0);
    assert_eq!(t.priority, 0);
    assert_eq!(t.status, Status::InProgress);
    assert_eq!(t.due, None);
    assert_ne!(Task::default().uuid, t.uuid);
    assert_eq!(Status::default(), Status::InProgress);
    assert_eq!(TaskSort::default(), TaskSort::Unsorted);
}

#[test]
fn new_task_takes_identity_and_time() {
    let t = Task::new(42, at(2020, 2, 29, 1, 2, 3));
    assert_eq!(t.uuid, 42);
    assert_eq!(t.created, at(2020, 2, 29, 1, 2, 3));
    assert_eq!(t.summary, "New task");
}

#[test]
fn settle_marks_a_task_with_status_completed() {
    let mut t = task("x");
    t.status = Status::Completed;
    t.settle();
    assert!(t.completed);
    assert_eq!(t.status, Status::Completed);
    let mut t = task("y");
    t.completed = true;
    t.status = Status::Cancelled;
    t.settle();
    assert!(t.completed);
    assert_eq!(t.status, Status::Cancelled);
    let mut t = task("z");
    t.settle();
    assert!(!t.completed);
}

#[test]
fn iterators_list_every_variant_in_order() {
    assert_eq!(
        Status::iterator(),
        vec![Status::NeedsAction, Status::InProgress, Status::Completed, Status::Cancelled]
    );
    assert_eq!(
        TaskSort::iterator(),
        vec![
            TaskSort::Unsorted,
            TaskSort::Summary,
            TaskSort::Completed,
            TaskSort::Description,
            TaskSort::Progress,
            TaskSort::Priority,
            TaskSort::Status,
            TaskSort::Due,
        ]
    );
    let ranks: Vec<u8> = Status::iterator().into_iter().map(|s| s.ordinal()).collect();
    assert_eq!(ranks, vec![0, 1, 2, 3]);
}

#[test]
fn dates_exist_or_are_refused() {
    assert!(Date::new(2023, 8, 25).is_some());
    assert!(Date::new(2024, 2, 29).is_some());
    assert!(Date::new(2023, 2, 29).is_none());
    assert!(Date::new(1900, 2, 29).is_none());
    assert!(Date::new(2000, 2, 29).is_some());
    assert!(Date::new(-4, 2, 29).is_some());
    assert!(Date::new(2023, 4, 31).is_none());
    assert!(Date::new(2023, 0, 1).is_none());
    assert!(Date::new(2023, 13, 1).is_none());
    assert!(Date::new(2023, 1, 0).is_none());
    assert!(Date::new(262142, 12, 31).is_some());
    assert!(Date::new(262143, 1, 1).is_none());
    assert!(Date::new(-262143, 1, 1).is_some());
    assert!(Date::new(-262144, 12, 31).is_none());
    let d = Date::new(2023, 8, 25).unwrap();
    assert_eq!((d.year(), d.month(), d.day()), (2023, 8, 25));
    assert!(Date::new(2023, 8, 20).unwrap().is_before(&d));
    assert!(!d.is_before(&d));
    assert!(Date::new(2022, 12, 31).unwrap().is_before(&d));
    assert!(!Date::new(2023, 9, 1).unwrap().is_before(&d));
}

#[test]
fn timestamps_are_times_of_day_or_are_refused() {
    let d = Date::new(2015, 6, 3).unwrap();
    assert!(Timestamp::new(d, 12, 34, 56, 789_012_345).is_some());
    assert!(Timestamp::new(d, 12, 34, 59, 1_789_012_345).is_some());
    assert!(Timestamp::new(d, 12, 34, 59, 2_000_000_000).is_none());
    assert!(Timestamp::new(d, 12, 34, 58, 1_000_000_000).is_none());
    assert!(Timestamp::new(d, 12, 34, 60, 0).is_none());
    assert!(Timestamp::new(d, 12, 60, 56, 0).is_none());
    assert!(Timestamp::new(d, 24, 34, 56, 0).is_none());
    let t = Timestamp::new(d, 12, 34, 56, 7).unwrap();
    assert_eq!((t.date(), t.hour(), t.minute(), t.second(), t.nanosecond()), (d, 12, 34, 56, 7));
    assert_eq!(d.midnight(), Timestamp::new(d, 0, 0, 0, 0).unwrap());
}

#[test]
fn timestamps_are_written_in_fifteen_characters() {
    assert_eq!(format_timestamp(&at(2023, 8, 1, 15, 12, 8)), "20230801T151208");
    assert_eq!(format_timestamp(&at(7, 1, 2, 3, 4, 5)), "00070102T030405");
    assert_eq!(format_timestamp(&at(0, 12, 31, 23, 59, 59)), "00001231T235959");
    assert_eq!(format_timestamp(&at(9999, 12, 31, 0, 0, 0)), "99991231T000000");
    let leap = Timestamp::new(Date::new(2016, 12, 31).unwrap(), 23, 59, 59, 1_000_000_000).unwrap();
    assert_eq!(format_timestamp(&leap), "20161231T235960");
    let fraction = Timestamp::new(Date::new(2016, 12, 31).unwrap(), 1, 2, 3, 999_999_999).unwrap();
    assert_eq!(format_timestamp(&fraction), "20161231T010203");
}

#[test]
fn timestamps_are_read_from_fifteen_characters() {
    assert_eq!(parse_timestamp("20230801T151208"), Some(at(2023, 8, 1, 15, 12, 8)));
    assert_eq!(parse_timestamp("00070102T030405"), Some(at(7, 1, 2, 3, 4, 5)));
    assert_eq!(
        parse_timestamp("20161231T235960"),
        Timestamp::new(Date::new(2016, 12, 31).unwrap(), 23, 59, 59, 1_000_000_000)
    );
    assert_eq!(parse_timestamp("00000101T000000"), Some(at(0, 1, 1, 0, 0, 0)));
    assert_eq!(
        parse_timestamp("20230801T120060"),
        Timestamp::new(Date::new(2023, 8, 1).unwrap(), 12, 0, 59, 1_000_000_000)
    );
    assert_eq!(parse_timestamp("20230229T000000"), None);
    assert_eq!(parse_timestamp("20231301T000000"), None);
    assert_eq!(parse_timestamp("20230801T240000"), None);
    assert_eq!(parse_timestamp("20230801T006000"), None);
    assert_eq!(parse_timestamp("20230801T000061"), None);
    assert_eq!(parse_timestamp("20230801"), None);
    assert_eq!(parse_timestamp("20230801T151208Z"), None);
    assert_eq!(parse_timestamp("2023-08-01T15:12:08"), None);
    assert_eq!(parse_timestamp(""), None);
}

#[test]
fn every_written_timestamp_reads_back() {
    for (y, m, d, h, mi, s) in [(0, 1, 1, 0, 0, 0), (1, 2, 28, 23, 59, 59), (999, 10, 10, 10, 10, 10), (2024, 2, 29, 12, 0, 1), (9999, 12, 31, 23, 59, 58)] {
        let t = at(y, m, d, h, mi, s);
        assert_eq!(parse_timestamp(&format_timestamp(&t)), Some(t));
    }
}

#[test]
fn colors_are_written_as_six_digits_in_upper_case() {
    assert_eq!(string_of(&format_color(Color { red: 83, green: 130, blue: 163 })), "#5382A3");
    assert_eq!(string_of(&format_color(Color { red: 0, green: 0, blue: 0 })), "#000000");
    assert_eq!(string_of(&format_color(Color { red: 255, green: 10, blue: 9 })), "#FF0A09");
    assert_eq!(string_of(&format_color(Color { red: 171, green: 205, blue: 239 })), "#ABCDEF");
}

#[test]
fn colors_are_read_from_three_or_six_digits() {
    assert_eq!(parse_color("#5382A3"), Some(Color { red: 83, green: 130, blue: 163 }));
    assert_eq!(parse_color("5382a3"), Some(Color { red: 83, green: 130, blue: 163 }));
    assert_eq!(parse_color("F7b3aA"), Some(Color { red: 247, green: 179, blue: 170 }));
    assert_eq!(parse_color("#777"), Some(Color { red: 119, green: 119, blue: 119 }));
    assert_eq!(parse_color("fFf"), Some(Color { red: 255, green: 255, blue: 255 }));
    assert_eq!(parse_color("#1a2"), Some(Color { red: 17, green: 170, blue: 34 }));
    assert_eq!(parse_color("#f#f#f"), Some(Color { red: 255, green: 255, blue: 255 }));
    assert_eq!(parse_color("fff#"), Some(Color { red: 255, green: 255, blue: 255 }));
    assert_eq!(parse_color("##12##34#56"), Some(Color { red: 18, green: 52, blue: 86 }));
    assert_eq!(parse_color("#123456#"), None);
    assert_eq!(parse_color("0000"), None);
    assert_eq!(parse_color("#0000f221"), None);
    assert_eq!(parse_color("#000000a"), None);
    assert_eq!(parse_color("ffccfg"), None);
    assert_eq!(parse_color(""), None);
    assert_eq!(parse_color("#"), None);
    assert_eq!(parse_color("12"), None);
    assert_eq!(parse_color("12345"), None);
    assert_eq!(parse_color("Magenta"), None);
    assert_eq!(parse_color(" fff"), None);
    assert_eq!(parse_color("\u{442}\u{435}\u{441}\u{442}"), None);
}

#[test]
fn every_written_color_reads_back() {
    for (r, g, b) in [(0u8, 0u8, 0u8), (255, 255, 255), (1, 16, 160), (9, 10, 11), (83, 130, 163)] {
        let c = Color { red: r, green: g, blue: b };
        assert_eq!(parse_color(&string_of(&format_color(c))), Some(c));
    }
}

#[test]
fn identifiers_are_written_hyphenated_in_lower_case() {
    assert_eq!(format_id(0xae02186d_10ae_404f_a4c9_450e06ea77cf), "ae02186d-10ae-404f-a4c9-450e06ea77cf");
    assert_eq!(format_id(0), "00000000-0000-0000-0000-000000000000");
    assert_eq!(format_id(0xA1), "00000000-0000-0000-0000-0000000000a1");
    assert_eq!(format_id(u128::MAX), "ffffffff-ffff-ffff-ffff-ffffffffffff");
    assert_eq!(format_id(0x0123456789abcdef_fedcba9876543210), "01234567-89ab-cdef-fedc-ba9876543210");
}

#[test]
fn identifiers_are_read_where_the_text_is_a_uuid() {
    assert_eq!(parse_id("ae02186d-10ae-404f-a4c9-450e06ea77cf"), Some(0xae02186d_10ae_404f_a4c9_450e06ea77cf));
    assert_eq!(parse_id("AE02186D10AE404FA4C9450E06EA77CF"), Some(0xae02186d_10ae_404f_a4c9_450e06ea77cf));
    assert_eq!(parse_id("not a uuid"), None);
    assert_eq!(parse_id(""), None);
    assert_eq!(parse_id(&format_id(12345)), Some(12345));
}

#[test]
fn bytes_are_read_from_decimal_digits() {
    assert_eq!(parse_byte("0"), Some(0));
    assert_eq!(parse_byte("9"), Some(9));
    assert_eq!(parse_byte("47"), Some(47));
    assert_eq!(parse_byte("255"), Some(255));
    assert_eq!(parse_byte("+5"), Some(5));
    assert_eq!(parse_byte("007"), Some(7));
    assert_eq!(parse_byte("0000000000000000000000000000255"), Some(255));
    assert_eq!(parse_byte("256"), None);
    assert_eq!(parse_byte("1000"), None);
    assert_eq!(parse_byte("99999999999999999999999999"), None);
    assert_eq!(parse_byte(""), None);
    assert_eq!(parse_byte("+"), None);
    assert_eq!(parse_byte("-1"), None);
    assert_eq!(parse_byte("++1"), None);
    assert_eq!(parse_byte("1+"), None);
    assert_eq!(parse_byte(" 1"), None);
    assert_eq!(parse_byte("1 "), None);
    assert_eq!(parse_byte("abc"), None);
    assert_eq!(parse_byte("4x"), None);
    assert_eq!(parse_byte("\u{661}"), None);
}

#[test]
fn bytes_read_as_std_reads_them() {
    for s in ["0", "255", "256", "+0", "+255", "+256", "-0", "", "+", "0x1", "00", "1_0", "300", "25 5"] {
        assert_eq!(parse_byte(s), s.parse::<u8>().ok(), "{:?}", s);
    }
}

#[test]
fn bytes_are_written_without_leading_zeros() {
    assert_eq!(string_of(&byte_text(0)), "0");
    assert_eq!(string_of(&byte_text(9)), "9");
    assert_eq!(string_of(&byte_text(10)), "10");
    assert_eq!(string_of(&byte_text(47)), "47");
    assert_eq!(string_of(&byte_text(100)), "100");
    assert_eq!(string_of(&byte_text(205)), "205");
    assert_eq!(string_of(&byte_text(255)), "255");
    for n in 0..=255u8 {
        assert_eq!(string_of(&byte_text(n)), n.to_string());
        assert_eq!(parse_byte(&n.to_string()), Some(n));
    }
}

#[test]
fn line_breaks_are_escaped_and_unescaped() {
    assert_eq!(string_of(&escape("line one\nline two")), "line one\\nline two");
    assert_eq!(string_of(&escape("\n\n")), "\\n\\n");
    assert_eq!(string_of(&escape("plain")), "plain");
    assert_eq!(string_of(&escape("")), "");
    assert_eq!(string_of(&unescape("line one\\nline two")), "line one\nline two");
    assert_eq!(string_of(&unescape("desc\\n")), "desc\n");
    assert_eq!(string_of(&unescape("\\\\n")), "\\\n");
    assert_eq!(string_of(&unescape("a\\")), "a\\");
    assert_eq!(string_of(&unescape("\\t")), "\\t");
    assert_eq!(string_of(&unescape("")), "");
    assert_eq!(string_of(&unescape(&string_of(&escape("a\\\nb\r\n")))), "a\\\nb\r\n");
}

#[test]
fn unescaping_is_as_std_replaces() {
    for s in ["\\n", "\\\\n", "a\\nb\\n", "\\n\\n\\", "n\\", "\\", "x\\ny\nz"] {
        assert_eq!(string_of(&unescape(s)), s.replace("\\n", "\n"));
        assert_eq!(string_of(&escape(s)), s.replace('\n', "\\n"));
    }
}

#[test]
fn texts_and_characters_convert_both_ways() {
    assert_eq!(chars_of("a\u{e9}\u{1F600}"), vec!['a', '\u{e9}', '\u{1F600}']);
    assert_eq!(string_of(&vec!['x', '\n', '\u{e9}']), "x\n\u{e9}");
    assert!(same("BEGIN", "BEGIN"));
    assert!(!same("BEGIN", "BEGIN "));
    assert!(!same("BEGIN", "begin"));
}

#[test]
fn task_blocks_are_counted() {
    let lines = property_lines("BEGIN:VCALENDAR\nBEGIN:VTODO\nEND:VTODO\nBEGIN:VTODO\nBEGIN:VEVENT\nBEGIN:\nbegin:VTODO\n");
    assert_eq!(count_task_blocks(&lines), 2);
    assert_eq!(count_task_blocks(&vec![]), 0);
}
