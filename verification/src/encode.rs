//! Encoding: from a task list to the text of a calendar file.

use crate::color::{color_text, format_color};
use crate::date::{format_timestamp, timestamp_text, Timestamp, TimestampView};
use crate::ident::{format_id, uuid_text};
use crate::task::{Status, Task, TaskList, TaskListView, TaskView};
use crate::text::{byte_text, chars_of, decimal_text, escape, escaped, push_chars, push_str, string_of};
use vstd::prelude::*;

verus! {

/// A property as it is written: the name, parameters that follow the name
/// (each with its leading `;`), and the value.
pub struct WrittenProperty {
    pub name: Seq<char>,
    pub parameters: Seq<char>,
    pub value: Seq<char>,
}

/// A property without parameters.
pub open spec fn property(name: Seq<char>, value: Seq<char>) -> WrittenProperty {
    WrittenProperty { name, parameters: Seq::empty(), value }
}

/// The line of a property: name, parameters, a colon, the value and a line
/// feed.
pub open spec fn written_line(p: WrittenProperty) -> Seq<char> {
    p.name + p.parameters + seq![':'] + p.value + seq!['\n']
}

/// The lines of a sequence of properties, one after the other.
pub open spec fn written_text(properties: Seq<WrittenProperty>) -> Seq<char>
    decreases properties.len(),
{
    if properties.len() == 0 {
        Seq::empty()
    } else {
        written_text(properties.drop_last()) + written_line(properties.last())
    }
}

/// The token written for a status.
pub open spec fn status_text(status: Status) -> Seq<char> {
    match status {
        Status::NeedsAction => "NEEDS-ACTION"@,
        Status::InProgress => "IN-PROGRESS"@,
        Status::Completed => "COMPLETED"@,
        Status::Cancelled => "CANCELLED"@,
    }
}

/// The properties that open a calendar: the fixed ones, then the name and
/// the colour of the list, then two more fixed ones.
pub open spec fn header_properties(list: TaskListView) -> Seq<WrittenProperty> {
    seq![
        property("BEGIN"@, "VCALENDAR"@),
        property("VERSION"@, "2.0"@),
        property("CALSCALE"@, "GREGORIAN"@),
        property("PRODID"@, "-//taskmaster-rs//github.com//"@),
        property("X-WR-CALNAME"@, list.name),
        property("X-APPLE-CALENDAR-COLOR"@, color_text(list.color)),
        WrittenProperty {
            name: "REFRESH-INTERVAL"@,
            parameters: ";VALUE=DURATION"@,
            value: "PT4H"@,
        },
        property("X-PUBLISHED-TTL"@, "PT4H"@),
    ]
}

/// The properties of one task, in their fixed order. A task marked completed
/// is written as `COMPLETED` whatever its status. The due date, a priority or
/// a progress of zero, and an empty description are left out.
pub open spec fn task_properties(task: TaskView, now: TimestampView) -> Seq<WrittenProperty> {
    let start = seq![
        property("BEGIN"@, "VTODO"@),
        property("UID"@, uuid_text(task.uuid)),
        property("CREATED"@, timestamp_text(task.created)),
        property("LAST-MODIFIED"@, timestamp_text(now)),
        property("DTSTAMP"@, timestamp_text(now)),
        property("SUMMARY"@, task.summary),
    ];
    let due = match task.due {
        Some(d) => start.push(property("DUE"@, timestamp_text(d.midnight()))),
        None => start,
    };
    let priority = if task.priority != 0 {
        due.push(property("PRIORITY"@, decimal_text(task.priority as nat)))
    } else {
        due
    };
    let progress = if task.progress != 0 {
        priority.push(property("PERCENT-COMPLETE"@, decimal_text(task.progress as nat)))
    } else {
        priority
    };
    let status = progress.push(
        property(
            "STATUS"@,
            if task.completed {
                "COMPLETED"@
            } else {
                status_text(task.status)
            },
        ),
    );
    let description = if task.description.len() > 0 {
        status.push(property("DESCRIPTION"@, escaped(task.description)))
    } else {
        status
    };
    description.push(property("END"@, "VTODO"@))
}

/// The properties of a sequence of tasks, task after task.
pub open spec fn tasks_properties(tasks: Seq<TaskView>, now: TimestampView) -> Seq<WrittenProperty>
    decreases tasks.len(),
{
    if tasks.len() == 0 {
        Seq::empty()
    } else {
        tasks_properties(tasks.drop_last(), now) + task_properties(tasks.last(), now)
    }
}

/// The properties of a calendar: the header, the tasks in list order, and
/// the closing `END:VCALENDAR`.
pub open spec fn list_properties(list: TaskListView, now: TimestampView) -> Seq<WrittenProperty> {
    header_properties(list) + tasks_properties(list.tasks, now) + seq![
        property("END"@, "VCALENDAR"@),
    ]
}

/// The text of the calendar file of a list, written at the time `now`.
pub open spec fn ical_text(list: TaskListView, now: TimestampView) -> Seq<char> {
    written_text(list_properties(list, now))
}

/// Where an encoding stands: the text written so far, and the properties
/// that it holds.
struct Writer {
    out: Vec<char>,
    written: Ghost<Seq<WrittenProperty>>,
}

impl Writer {
    spec fn wf(self) -> bool {
        self.out@ == written_text(self.written@)
    }

    fn new() -> (w: Writer)
        ensures
            w.wf(),
            w.written@ == Seq::<WrittenProperty>::empty(),
    {
        Writer { out: Vec::new(), written: Ghost(Seq::empty()) }
    }

    /// Writes the line of a property with parameters.
    fn put_with(&mut self, name: &str, parameters: &str, value: &Vec<char>)
        requires
            old(self).wf(),
        ensures
            final(self).wf(),
            final(self).written@ == old(self).written@.push(
                WrittenProperty { name: name@, parameters: parameters@, value: value@ },
            ),
    {
        let ghost p = WrittenProperty { name: name@, parameters: parameters@, value: value@ };
        push_str(&mut self.out, name);
        push_str(&mut self.out, parameters);
        self.out.push(':');
        push_chars(&mut self.out, value);
        self.out.push('\n');
        proof {
            let before = old(self).written@;
            self.written = Ghost(before.push(p));
            assert(before.push(p).drop_last() == before);
            assert(self.out@ == old(self).out@ + written_line(p));
        }
    }

    /// Writes the line of a property whose value is a vector of characters.
    fn put_chars(&mut self, name: &str, value: &Vec<char>)
        requires
            old(self).wf(),
        ensures
            final(self).wf(),
            final(self).written@ == old(self).written@.push(property(name@, value@)),
    {
        self.put_with(name, "", value);
        proof {
            reveal_strlit("");
            assert(""@ == Seq::<char>::empty());
        }
    }

    /// Writes the line of a property whose value is a string.
    fn put(&mut self, name: &str, value: &str)
        requires
            old(self).wf(),
        ensures
            final(self).wf(),
            final(self).written@ == old(self).written@.push(property(name@, value@)),
    {
        let chars = chars_of(value);
        self.put_chars(name, &chars);
    }
}

/// Writes the token of a status.
fn status_token(status: Status) -> (s: &'static str)
    ensures
        s@ == status_text(status),
{
    match status {
        Status::NeedsAction => "NEEDS-ACTION",
        Status::InProgress => "IN-PROGRESS",
        Status::Completed => "COMPLETED",
        Status::Cancelled => "CANCELLED",
    }
}

/// Writes the block of one task.
fn write_task(w: &mut Writer, task: &Task, now: &Timestamp)
    requires
        old(w).wf(),
    ensures
        final(w).wf(),
        final(w).written@ == old(w).written@ + task_properties(task@, now@),
{
    let ghost before = w.written@;
    let ghost t = task@;
    let ghost mut block = Seq::<WrittenProperty>::empty();
    assert(w.written@ == before + block);
    let stamp = format_timestamp(now);
    w.put("BEGIN", "VTODO");
    proof {
        block = lemma_appended(before, block, property("BEGIN"@, "VTODO"@));
    }
    w.put("UID", format_id(task.uuid).as_str());
    proof {
        block = lemma_appended(before, block, property("UID"@, uuid_text(t.uuid)));
    }
    w.put("CREATED", format_timestamp(&task.created).as_str());
    proof {
        block = lemma_appended(before, block, property("CREATED"@, timestamp_text(t.created)));
    }
    w.put("LAST-MODIFIED", stamp.as_str());
    proof {
        block = lemma_appended(before, block, property("LAST-MODIFIED"@, timestamp_text(now@)));
    }
    w.put("DTSTAMP", stamp.as_str());
    proof {
        block = lemma_appended(before, block, property("DTSTAMP"@, timestamp_text(now@)));
    }
    w.put("SUMMARY", task.summary.as_str());
    proof {
        block = lemma_appended(before, block, property("SUMMARY"@, t.summary));
    }
    match &task.due {
        Some(d) => {
            w.put("DUE", format_timestamp(&d.midnight()).as_str());
            proof {
                block = lemma_appended(
                    before,
                    block,
                    property("DUE"@, timestamp_text(d@.midnight())),
                );
            }
        },
        None => {},
    }
    if task.priority != 0 {
        w.put_chars("PRIORITY", &byte_text(task.priority));
        proof {
            block = lemma_appended(
                before,
                block,
                property("PRIORITY"@, decimal_text(t.priority as nat)),
            );
        }
    }
    if task.progress != 0 {
        w.put_chars("PERCENT-COMPLETE", &byte_text(task.progress));
        proof {
            block = lemma_appended(
                before,
                block,
                property("PERCENT-COMPLETE"@, decimal_text(t.progress as nat)),
            );
        }
    }
    if task.completed {
        w.put("STATUS", "COMPLETED");
    } else {
        w.put("STATUS", status_token(task.status));
    }
    proof {
        block = lemma_appended(
            before,
            block,
            property(
                "STATUS"@,
                if t.completed {
                    "COMPLETED"@
                } else {
                    status_text(t.status)
                },
            ),
        );
    }
    if !task.description.as_str().is_empty() {
        w.put_chars("DESCRIPTION", &escape(task.description.as_str()));
        proof {
            block = lemma_appended(
                before,
                block,
                property("DESCRIPTION"@, escaped(t.description)),
            );
        }
    }
    w.put("END", "VTODO");
    proof {
        block = lemma_appended(before, block, property("END"@, "VTODO"@));
        assert(block == task_properties(t, now@));
    }
}

/// Appending to the second of two joined sequences appends to the whole.
proof fn lemma_appended(
    before: Seq<WrittenProperty>,
    block: Seq<WrittenProperty>,
    p: WrittenProperty,
) -> (longer: Seq<WrittenProperty>)
    ensures
        longer == block.push(p),
        before + longer == (before + block).push(p),
{
    assert(before + block.push(p) == (before + block).push(p));
    block.push(p)
}

impl TaskList {
    /// Writes the list as the text of a calendar file, with `now` as the time
    /// of writing: the header, one block for each task in list order, and the
    /// closing line.
    pub fn to_ical_string_at(&self, now: &Timestamp) -> (text: String)
        ensures
            text@ == ical_text(self@, now@),
    {
        let ghost list = self@;
        let ghost none = Seq::<WrittenProperty>::empty();
        let ghost mut head = Seq::<WrittenProperty>::empty();
        let mut w = Writer::new();
        assert(w.written@ == none + head);
        w.put("BEGIN", "VCALENDAR");
        proof {
            head = lemma_appended(none, head, property("BEGIN"@, "VCALENDAR"@));
        }
        w.put("VERSION", "2.0");
        proof {
            head = lemma_appended(none, head, property("VERSION"@, "2.0"@));
        }
        w.put("CALSCALE", "GREGORIAN");
        proof {
            head = lemma_appended(none, head, property("CALSCALE"@, "GREGORIAN"@));
        }
        w.put("PRODID", "-//taskmaster-rs//github.com//");
        proof {
            head = lemma_appended(
                none,
                head,
                property("PRODID"@, "-//taskmaster-rs//github.com//"@),
            );
        }
        w.put("X-WR-CALNAME", self.name.as_str());
        proof {
            head = lemma_appended(none, head, property("X-WR-CALNAME"@, list.name));
        }
        w.put_chars("X-APPLE-CALENDAR-COLOR", &format_color(self.color));
        proof {
            head = lemma_appended(
                none,
                head,
                property("X-APPLE-CALENDAR-COLOR"@, color_text(list.color)),
            );
        }
        w.put_with("REFRESH-INTERVAL", ";VALUE=DURATION", &chars_of("PT4H"));
        proof {
            head = lemma_appended(
                none,
                head,
                WrittenProperty {
                    name: "REFRESH-INTERVAL"@,
                    parameters: ";VALUE=DURATION"@,
                    value: "PT4H"@,
                },
            );
        }
        w.put("X-PUBLISHED-TTL", "PT4H");
        proof {
            head = lemma_appended(none, head, property("X-PUBLISHED-TTL"@, "PT4H"@));
            assert(head == header_properties(list));
            assert(none + head == head);
        }
        let mut i: usize = 0;
        proof {
            assert(list.tasks.take(0) == Seq::<TaskView>::empty());
            assert(w.written@ == header_properties(list) + tasks_properties(
                list.tasks.take(0),
                now@,
            ));
        }
        while i < self.tasks.len()
            invariant
                i <= self.tasks.len(),
                list == self@,
                w.wf(),
                w.written@ == header_properties(list) + tasks_properties(
                    list.tasks.take(i as int),
                    now@,
                ),
            decreases self.tasks.len() - i,
        {
            let ghost done = tasks_properties(list.tasks.take(i as int), now@);
            proof {
                assert(list.tasks.take(i + 1).drop_last() == list.tasks.take(i as int));
                assert(list.tasks.take(i + 1).last() == self.tasks@[i as int]@);
            }
            write_task(&mut w, &self.tasks[i], now);
            proof {
                let block = task_properties(self.tasks@[i as int]@, now@);
                assert(header_properties(list) + done + block == header_properties(list) + (done
                    + block));
            }
            i += 1;
        }
        proof {
            assert(list.tasks.take(i as int) == list.tasks);
        }
        w.put("END", "VCALENDAR");
        proof {
            let body = header_properties(list) + tasks_properties(list.tasks, now@);
            let last = property("END"@, "VCALENDAR"@);
            assert(body.push(last) == body + seq![last]);
        }
        string_of(&w.out)
    }
}

} // verus!
