//! What decoding makes of the properties that encoding writes.

use crate::color::{color_text, lemma_color_text_reads_back};
use crate::date::{
    lemma_timestamp_text_reads_back, timestamp_of_text, timestamp_text, TimestampView,
};
use crate::decode::{
    decode, decode_line, decode_state, is_task_field, set_task_field,
    status_of_text, DecodeState, TaskSeedView,
};
use crate::encode::{
    header_properties, list_properties, property, status_text, task_properties,
    tasks_properties, WrittenProperty,
};
use crate::ident::{id_of_text, lemma_uuid_text_reads_back, uuid_text};
use crate::lexer::PropertyLineView;
use crate::parser::ParseFromFileError;
use crate::task::{Status, TaskListView, TaskView};
use crate::text::{
    byte_of_text, decimal_text, escaped, has_escape, lemma_byte_text_reads_back, lemma_decimal_text_value,
    lemma_unescape_escape, unescaped,
};
use vstd::prelude::*;

verus! {

/// The line that the lexer yields for a written property: the name without
/// its parameters, and the value, which is absent where nothing was written.
pub open spec fn read_back(p: WrittenProperty) -> PropertyLineView {
    PropertyLineView::Property {
        name: p.name,
        value: if p.value.len() == 0 {
            None
        } else {
            Some(p.value)
        },
    }
}

/// The lines that the lexer yields for written properties.
pub open spec fn read_back_all(properties: Seq<WrittenProperty>) -> Seq<PropertyLineView> {
    properties.map_values(|p: WrittenProperty| read_back(p))
}

/// The state after `lines`, read in order from `state` on, or the error of
/// the first line that fails.
pub open spec fn decode_from(
    state: DecodeState,
    lines: Seq<PropertyLineView>,
    seeds: Seq<TaskSeedView>,
) -> Result<DecodeState, ParseFromFileError>
    decreases lines.len(),
{
    if lines.len() == 0 {
        Ok(state)
    } else {
        match decode_from(state, lines.drop_last(), seeds) {
            Ok(s) => decode_line(s, lines.last(), seeds[s.list.tasks.len() as int]),
            Err(e) => Err(e),
        }
    }
}

/// Decoding a file is decoding its lines from the start.
pub proof fn lemma_decode_state_from_start(lines: Seq<PropertyLineView>, seeds: Seq<TaskSeedView>)
    ensures
        decode_state(lines, seeds) == decode_from(DecodeState::start(), lines, seeds),
    decreases lines.len(),
{
    if lines.len() > 0 {
        lemma_decode_state_from_start(lines.drop_last(), seeds);
    }
}

/// Decoding two runs of lines is decoding the first and going on with the
/// second.
pub proof fn lemma_decode_from_joined(
    state: DecodeState,
    a: Seq<PropertyLineView>,
    b: Seq<PropertyLineView>,
    seeds: Seq<TaskSeedView>,
)
    ensures
        decode_from(state, a + b, seeds) == match decode_from(state, a, seeds) {
            Ok(s) => decode_from(s, b, seeds),
            Err(e) => Err(e),
        },
    decreases b.len(),
{
    if b.len() == 0 {
        assert(a + b == a);
    } else {
        lemma_decode_from_joined(state, a, b.drop_last(), seeds);
        assert((a + b).drop_last() == a + b.drop_last());
        assert((a + b).last() == b.last());
    }
}

/// Decoding one more line.
pub proof fn lemma_decode_from_one_more(
    state: DecodeState,
    lines: Seq<PropertyLineView>,
    line: PropertyLineView,
    seeds: Seq<TaskSeedView>,
)
    ensures
        decode_from(state, lines.push(line), seeds) == match decode_from(state, lines, seeds) {
            Ok(s) => decode_line(s, line, seeds[s.list.tasks.len() as int]),
            Err(e) => Err(e),
        },
{
    assert(lines.push(line).drop_last() == lines);
}

/// The first letters and the lengths of the property names, by which they
/// are told apart.
proof fn lemma_names()
    ensures
        "X-WR-CALNAME"@.len() == 12,
        "X-APPLE-CALENDAR-COLOR"@.len() == 22,
        "BEGIN"@.len() == 5,
        "END"@.len() == 3 && "END"@[0] == 'E',
        "UID"@.len() == 3 && "UID"@[0] == 'U',
        "DUE"@.len() == 3 && "DUE"@[0] == 'D',
        "SUMMARY"@.len() == 7 && "SUMMARY"@[0] == 'S',
        "CREATED"@.len() == 7 && "CREATED"@[0] == 'C',
        "VERSION"@.len() == 7 && "VERSION"@[0] == 'V',
        "DTSTAMP"@.len() == 7 && "DTSTAMP"@[0] == 'D',
        "PRIORITY"@.len() == 8 && "PRIORITY"@[0] == 'P',
        "CALSCALE"@.len() == 8 && "CALSCALE"@[0] == 'C',
        "STATUS"@.len() == 6 && "STATUS"@[0] == 'S',
        "PRODID"@.len() == 6 && "PRODID"@[0] == 'P',
        "DESCRIPTION"@.len() == 11,
        "LAST-MODIFIED"@.len() == 13,
        "X-PUBLISHED-TTL"@.len() == 15,
        "PERCENT-COMPLETE"@.len() == 16 && "PERCENT-COMPLETE"@[0] == 'P',
        "REFRESH-INTERVAL"@.len() == 16 && "REFRESH-INTERVAL"@[0] == 'R',
{
    reveal_strlit("X-WR-CALNAME");
    reveal_strlit("X-APPLE-CALENDAR-COLOR");
    reveal_strlit("BEGIN");
    reveal_strlit("END");
    reveal_strlit("UID");
    reveal_strlit("DUE");
    reveal_strlit("SUMMARY");
    reveal_strlit("CREATED");
    reveal_strlit("VERSION");
    reveal_strlit("DTSTAMP");
    reveal_strlit("PRIORITY");
    reveal_strlit("CALSCALE");
    reveal_strlit("STATUS");
    reveal_strlit("PRODID");
    reveal_strlit("DESCRIPTION");
    reveal_strlit("LAST-MODIFIED");
    reveal_strlit("X-PUBLISHED-TTL");
    reveal_strlit("PERCENT-COMPLETE");
    reveal_strlit("REFRESH-INTERVAL");
}

/// The lengths and first letters of the values that the codec tells apart.
proof fn lemma_values()
    ensures
        "VTODO"@.len() == 5,
        "VCALENDAR"@.len() == 9,
        "2.0"@.len() == 3,
        "GREGORIAN"@.len() == 9,
        "-//taskmaster-rs//github.com//"@.len() == 30,
        "PT4H"@.len() == 4,
        "IN-PROGRESS"@.len() == 11,
        "NEEDS-ACTION"@.len() == 12,
        "COMPLETED"@.len() == 9 && "COMPLETED"@[1] == 'O',
        "CANCELLED"@.len() == 9 && "CANCELLED"@[1] == 'A',
{
    reveal_strlit("VTODO");
    reveal_strlit("VCALENDAR");
    reveal_strlit("2.0");
    reveal_strlit("GREGORIAN");
    reveal_strlit("-//taskmaster-rs//github.com//");
    reveal_strlit("PT4H");
    reveal_strlit("IN-PROGRESS");
    reveal_strlit("NEEDS-ACTION");
    reveal_strlit("COMPLETED");
    reveal_strlit("CANCELLED");
}

/// A property that the codec writes and does not read leaves the state as it
/// is, provided it has a value.
proof fn lemma_passed_over(state: DecodeState, p: WrittenProperty, seed: TaskSeedView)
    requires
        p.value.len() > 0,
        p.name == "VERSION"@ || p.name == "CALSCALE"@ || p.name == "PRODID"@ || p.name
            == "REFRESH-INTERVAL"@ || p.name == "X-PUBLISHED-TTL"@ || p.name == "LAST-MODIFIED"@
            || p.name == "DTSTAMP"@,
    ensures
        decode_line(state, read_back(p), seed) == Ok::<DecodeState, ParseFromFileError>(state),
{
    lemma_names();
}

/// The state after the header of a list: the name and the colour of the
/// list, no task, none open.
pub open spec fn after_header(list: TaskListView) -> DecodeState {
    DecodeState {
        list: TaskListView { name: list.name, tasks: Seq::empty(), color: list.color },
        open: false,
    }
}

/// Decoding the header of a list with a name gives its name and colour.
proof fn lemma_header_reads_back(list: TaskListView, seeds: Seq<TaskSeedView>)
    requires
        list.name.len() > 0,
    ensures
        decode_from(DecodeState::start(), read_back_all(header_properties(list)), seeds) == Ok::<
            DecodeState,
            ParseFromFileError,
        >(after_header(list)),
{
    lemma_names();
    lemma_values();
    lemma_color_text_reads_back(list.color);
    let ps = header_properties(list);
    let lines = read_back_all(ps);
    let none = Seq::<PropertyLineView>::empty();
    let l0 = none.push(read_back(ps[0]));
    let l1 = l0.push(read_back(ps[1]));
    let l2 = l1.push(read_back(ps[2]));
    let l3 = l2.push(read_back(ps[3]));
    let l4 = l3.push(read_back(ps[4]));
    let l5 = l4.push(read_back(ps[5]));
    let l6 = l5.push(read_back(ps[6]));
    let l7 = l6.push(read_back(ps[7]));
    assert(lines == l7);
    let start = DecodeState::start();
    let seed = seeds[0];
    let named = DecodeState { list: TaskListView { name: list.name, ..start.list }, ..start };
    let end = after_header(list);
    assert(decode_from(start, none, seeds) == Ok::<DecodeState, ParseFromFileError>(start));
    lemma_decode_from_one_more(start, none, read_back(ps[0]), seeds);
    assert(decode_from(start, l0, seeds) == Ok::<DecodeState, ParseFromFileError>(start));
    lemma_decode_from_one_more(start, l0, read_back(ps[1]), seeds);
    lemma_passed_over(start, ps[1], seed);
    assert(decode_from(start, l1, seeds) == Ok::<DecodeState, ParseFromFileError>(start));
    lemma_decode_from_one_more(start, l1, read_back(ps[2]), seeds);
    lemma_passed_over(start, ps[2], seed);
    assert(decode_from(start, l2, seeds) == Ok::<DecodeState, ParseFromFileError>(start));
    lemma_decode_from_one_more(start, l2, read_back(ps[3]), seeds);
    lemma_passed_over(start, ps[3], seed);
    assert(decode_from(start, l3, seeds) == Ok::<DecodeState, ParseFromFileError>(start));
    lemma_decode_from_one_more(start, l3, read_back(ps[4]), seeds);
    assert(decode_from(start, l4, seeds) == Ok::<DecodeState, ParseFromFileError>(named));
    lemma_decode_from_one_more(start, l4, read_back(ps[5]), seeds);
    assert(color_text(list.color).len() == 7);
    assert(decode_from(start, l5, seeds) == Ok::<DecodeState, ParseFromFileError>(end));
    lemma_decode_from_one_more(start, l5, read_back(ps[6]), seeds);
    lemma_passed_over(end, ps[6], seed);
    assert(decode_from(start, l6, seeds) == Ok::<DecodeState, ParseFromFileError>(end));
    lemma_decode_from_one_more(start, l6, read_back(ps[7]), seeds);
    lemma_passed_over(end, ps[7], seed);
}

/// Whether decoding the written properties from `state` on ends in `end`.
pub open spec fn reads(
    state: DecodeState,
    properties: Seq<WrittenProperty>,
    seeds: Seq<TaskSeedView>,
    end: DecodeState,
) -> bool {
    decode_from(state, read_back_all(properties), seeds) == Ok::<DecodeState, ParseFromFileError>(
        end,
    )
}

/// Reading one more written property.
proof fn lemma_reads_one_more(
    state: DecodeState,
    properties: Seq<WrittenProperty>,
    p: WrittenProperty,
    seeds: Seq<TaskSeedView>,
    mid: DecodeState,
    end: DecodeState,
)
    requires
        reads(state, properties, seeds, mid),
        decode_line(mid, read_back(p), seeds[mid.list.tasks.len() as int]) == Ok::<
            DecodeState,
            ParseFromFileError,
        >(end),
    ensures
        reads(state, properties.push(p), seeds, end),
{
    assert(read_back_all(properties.push(p)) == read_back_all(properties).push(read_back(p)));
    lemma_decode_from_one_more(state, read_back_all(properties), read_back(p), seeds);
}

/// Reading two runs of written properties, one after the other.
proof fn lemma_reads_joined(
    state: DecodeState,
    a: Seq<WrittenProperty>,
    b: Seq<WrittenProperty>,
    seeds: Seq<TaskSeedView>,
    mid: DecodeState,
    end: DecodeState,
)
    requires
        reads(state, a, seeds, mid),
        reads(mid, b, seeds, end),
    ensures
        reads(state, a + b, seeds, end),
{
    assert(read_back_all(a + b) == read_back_all(a) + read_back_all(b));
    lemma_decode_from_joined(state, read_back_all(a), read_back_all(b), seeds);
}

/// Escaping makes a text no shorter.
proof fn lemma_escaped_len(s: Seq<char>)
    ensures
        escaped(s).len() >= s.len(),
    decreases s.len(),
{
    if s.len() > 0 {
        lemma_escaped_len(s.drop_first());
    }
}

/// The token of a status is read as that status.
proof fn lemma_status_text_reads_back(status: Status)
    ensures
        status_text(status).len() > 0,
        status_of_text(status_text(status)) == Some(status),
{
    lemma_values();
}

/// Whether a task is one that decoding gives back from what encoding
/// writes: its summary is not empty, its dates are valid and their years are
/// written in four digits, and its description holds no backslash directly
/// before the letter `n`.
pub open spec fn round_trips(task: TaskView) -> bool {
    &&& task.summary.len() > 0
    &&& task.is_valid()
    &&& task.created.has_plain_year()
    &&& task.due matches Some(d) ==> 0 <= d.year <= 9999
    &&& !has_escape(task.description)
}

/// What decoding gives back for a task that encoding wrote: the task with
/// its time of creation cut to the second, marked completed if its status
/// said so, and with the status `Completed` if it was marked completed.
pub open spec fn restored(task: TaskView) -> TaskView {
    TaskView {
        completed: task.completed || task.status == Status::Completed,
        status: if task.completed {
            Status::Completed
        } else {
            task.status
        },
        created: task.created.whole_second(),
        ..task
    }
}

/// The state in which `task` is the last task of the list and open.
spec fn filling(state: DecodeState, task: TaskView) -> DecodeState {
    DecodeState {
        list: TaskListView { tasks: state.list.tasks.push(task), ..state.list },
        open: true,
    }
}

/// A property that sets a field of the open task replaces that task.
proof fn lemma_sets_field(
    state: DecodeState,
    task: TaskView,
    name: Seq<char>,
    value: Seq<char>,
    seed: TaskSeedView,
    next: TaskView,
)
    requires
        is_task_field(name),
        value.len() > 0,
        set_task_field(task, name, value) == Ok::<TaskView, ParseFromFileError>(next),
    ensures
        decode_line(filling(state, task), read_back(property(name, value)), seed) == Ok::<
            DecodeState,
            ParseFromFileError,
        >(filling(state, next)),
{
    lemma_names();
    let st = filling(state, task);
    assert(st.has_cursor());
    assert(st.current() == task);
    assert(st.with_current(next).list.tasks == state.list.tasks.push(next));
}

/// The state once a task has been read and closed.
spec fn closed_with(state: DecodeState, task: TaskView) -> DecodeState {
    DecodeState {
        list: TaskListView { tasks: state.list.tasks.push(task), ..state.list },
        open: false,
    }
}

/// A timestamp whose year has four digits is written in fifteen characters.
proof fn lemma_timestamp_text_len(t: TimestampView)
    requires
        t.has_plain_year(),
    ensures
        timestamp_text(t).len() == 15,
{
}

/// What each property of a task makes of the task.
proof fn lemma_field_results(t: TaskView, value: Seq<char>)
    ensures
        set_task_field(t, "UID"@, value) == Ok::<TaskView, ParseFromFileError>(
            match id_of_text(value) {
                Some(uuid) => TaskView { uuid, ..t },
                None => t,
            },
        ),
        set_task_field(t, "SUMMARY"@, value) == Ok::<TaskView, ParseFromFileError>(
            TaskView { summary: value, ..t },
        ),
        set_task_field(t, "DUE"@, value) == match timestamp_of_text(value) {
            Some(at) => Ok::<TaskView, ParseFromFileError>(TaskView { due: Some(at.date), ..t }),
            None => Err(ParseFromFileError::InvalidField),
        },
        set_task_field(t, "PRIORITY"@, value) == match byte_of_text(value) {
            Some(priority) => Ok::<TaskView, ParseFromFileError>(TaskView { priority, ..t }),
            None => Err(ParseFromFileError::InvalidField),
        },
        set_task_field(t, "PERCENT-COMPLETE"@, value) == match byte_of_text(value) {
            Some(progress) => Ok::<TaskView, ParseFromFileError>(TaskView { progress, ..t }),
            None => Err(ParseFromFileError::InvalidField),
        },
        set_task_field(t, "STATUS"@, value) == match status_of_text(value) {
            Some(status) => Ok::<TaskView, ParseFromFileError>(
                TaskView {
                    status,
                    completed: t.completed || status == Status::Completed,
                    ..t
                },
            ),
            None => Err(ParseFromFileError::InvalidField),
        },
        set_task_field(t, "DESCRIPTION"@, value) == Ok::<TaskView, ParseFromFileError>(
            TaskView { description: unescaped(value), ..t },
        ),
        set_task_field(t, "CREATED"@, value) == match timestamp_of_text(value) {
            Some(created) => Ok::<TaskView, ParseFromFileError>(TaskView { created, ..t }),
            None => Err(ParseFromFileError::InvalidField),
        },
{
    lemma_names();
}

/// `BEGIN:VTODO` opens a fresh task.
proof fn lemma_opens(state: DecodeState, seed: TaskSeedView)
    ensures
        decode_line(state, read_back(property("BEGIN"@, "VTODO"@)), seed) == Ok::<
            DecodeState,
            ParseFromFileError,
        >(filling(state, TaskView::fresh(seed.uuid, seed.created))),
{
    lemma_names();
    lemma_values();
}

/// `END:VTODO` closes the open task.
proof fn lemma_closes(state: DecodeState, task: TaskView, seed: TaskSeedView)
    ensures
        decode_line(filling(state, task), read_back(property("END"@, "VTODO"@)), seed) == Ok::<
            DecodeState,
            ParseFromFileError,
        >(closed_with(state, task)),
{
    lemma_names();
    lemma_values();
}

/// Reading a property that sets a field of the open task.
proof fn lemma_reads_field(
    state: DecodeState,
    properties: Seq<WrittenProperty>,
    task: TaskView,
    p: WrittenProperty,
    seeds: Seq<TaskSeedView>,
    next: TaskView,
)
    requires
        reads(state, properties, seeds, filling(state, task)),
        p.parameters.len() == 0,
        is_task_field(p.name),
        p.value.len() > 0,
        set_task_field(task, p.name, p.value) == Ok::<TaskView, ParseFromFileError>(next),
    ensures
        reads(state, properties.push(p), seeds, filling(state, next)),
{
    let later = seeds[state.list.tasks.len() as int + 1];
    assert(p.parameters == Seq::<char>::empty());
    assert(p == property(p.name, p.value));
    lemma_sets_field(state, task, p.name, p.value, later, next);
    lemma_reads_one_more(
        state,
        properties,
        p,
        seeds,
        filling(state, task),
        filling(state, next),
    );
}

/// Reading a property that is passed over while a task is open.
proof fn lemma_reads_passed_over(
    state: DecodeState,
    properties: Seq<WrittenProperty>,
    task: TaskView,
    p: WrittenProperty,
    seeds: Seq<TaskSeedView>,
)
    requires
        reads(state, properties, seeds, filling(state, task)),
        p.value.len() > 0,
        p.name == "LAST-MODIFIED"@ || p.name == "DTSTAMP"@,
    ensures
        reads(state, properties.push(p), seeds, filling(state, task)),
{
    let later = seeds[state.list.tasks.len() as int + 1];
    lemma_passed_over(filling(state, task), p, later);
    lemma_reads_one_more(
        state,
        properties,
        p,
        seeds,
        filling(state, task),
        filling(state, task),
    );
}

/// The properties of a task up to its summary.
spec fn block_start(task: TaskView, now: TimestampView) -> Seq<WrittenProperty> {
    seq![
        property("BEGIN"@, "VTODO"@),
        property("UID"@, uuid_text(task.uuid)),
        property("CREATED"@, timestamp_text(task.created)),
        property("LAST-MODIFIED"@, timestamp_text(now)),
        property("DTSTAMP"@, timestamp_text(now)),
        property("SUMMARY"@, task.summary),
    ]
}

/// The task as it is filled once its summary has been read.
spec fn started(task: TaskView, seed: TaskSeedView) -> TaskView {
    TaskView {
        uuid: task.uuid,
        created: task.created.whole_second(),
        summary: task.summary,
        ..TaskView::fresh(seed.uuid, seed.created)
    }
}

/// Decoding the start of the block of a task.
proof fn lemma_block_start_reads_back(
    state: DecodeState,
    task: TaskView,
    now: TimestampView,
    seeds: Seq<TaskSeedView>,
)
    requires
        round_trips(task),
        now.has_plain_year(),
    ensures
        reads(
            state,
            block_start(task, now),
            seeds,
            filling(state, started(task, seeds[state.list.tasks.len() as int])),
        ),
{
    let seed = seeds[state.list.tasks.len() as int];
    let none = Seq::<WrittenProperty>::empty();
    assert(read_back_all(none) == Seq::<PropertyLineView>::empty());
    assert(reads(state, none, seeds, state));
    let p_begin = property("BEGIN"@, "VTODO"@);
    let t0 = TaskView::fresh(seed.uuid, seed.created);
    let ps0 = none.push(p_begin);
    lemma_opens(state, seed);
    lemma_reads_one_more(state, none, p_begin, seeds, state, filling(state, t0));

    let p_uid = property("UID"@, uuid_text(task.uuid));
    let t1 = TaskView { uuid: task.uuid, ..t0 };
    let ps1 = ps0.push(p_uid);
    lemma_uuid_text_reads_back(task.uuid);
    lemma_field_results(t0, p_uid.value);
    assert(uuid_text(task.uuid).len() == 36);
    lemma_reads_field(state, ps0, t0, p_uid, seeds, t1);

    let p_created = property("CREATED"@, timestamp_text(task.created));
    let t2 = TaskView { created: task.created.whole_second(), ..t1 };
    let ps2 = ps1.push(p_created);
    lemma_timestamp_text_reads_back(task.created);
    lemma_timestamp_text_len(task.created);
    lemma_field_results(t1, p_created.value);
    lemma_reads_field(state, ps1, t1, p_created, seeds, t2);

    let p_modified = property("LAST-MODIFIED"@, timestamp_text(now));
    let p_stamp = property("DTSTAMP"@, timestamp_text(now));
    let ps3 = ps2.push(p_modified);
    let ps4 = ps3.push(p_stamp);
    lemma_timestamp_text_len(now);
    lemma_reads_passed_over(state, ps2, t2, p_modified, seeds);
    lemma_reads_passed_over(state, ps3, t2, p_stamp, seeds);

    let p_summary = property("SUMMARY"@, task.summary);
    let t5 = TaskView { summary: task.summary, ..t2 };
    lemma_field_results(t2, p_summary.value);
    lemma_reads_field(state, ps4, t2, p_summary, seeds, t5);
    assert(ps4.push(p_summary) == block_start(task, now));
    assert(t5 == started(task, seed));
}

/// Decoding the block that encoding writes for a task adds the restored
/// task to the list and leaves no task open.
proof fn lemma_task_reads_back(
    state: DecodeState,
    task: TaskView,
    now: TimestampView,
    seeds: Seq<TaskSeedView>,
)
    requires
        round_trips(task),
        now.has_plain_year(),
    ensures
        reads(
            state,
            task_properties(task, now),
            seeds,
            closed_with(state, restored(task)),
        ),
{
    let seed = seeds[state.list.tasks.len() as int];
    let later = seeds[state.list.tasks.len() as int + 1];
    let start = block_start(task, now);
    let t5 = started(task, seed);
    lemma_block_start_reads_back(state, task, now, seeds);

    // DUE, where there is a date.
    let t6 = TaskView { due: task.due, ..t5 };
    let due = match task.due {
        Some(d) => start.push(property("DUE"@, timestamp_text(d.midnight()))),
        None => start,
    };
    if let Some(d) = task.due {
        let p_due = property("DUE"@, timestamp_text(d.midnight()));
        lemma_timestamp_text_reads_back(d.midnight());
        lemma_timestamp_text_len(d.midnight());
        assert(d.midnight().whole_second().date == d);
        lemma_field_results(t5, p_due.value);
        lemma_reads_field(state, start, t5, p_due, seeds, t6);
    } else {
        assert(t6 == t5);
    }
    assert(reads(state, due, seeds, filling(state, t6)));

    // PRIORITY, where it is not zero.
    let t7 = TaskView { priority: task.priority, ..t6 };
    let priority = if task.priority != 0 {
        due.push(property("PRIORITY"@, decimal_text(task.priority as nat)))
    } else {
        due
    };
    if task.priority != 0 {
        let p_priority = property("PRIORITY"@, decimal_text(task.priority as nat));
        lemma_byte_text_reads_back(task.priority);
        lemma_decimal_text_value(task.priority as nat);
        lemma_field_results(t6, p_priority.value);
        lemma_reads_field(state, due, t6, p_priority, seeds, t7);
    } else {
        assert(t7 == t6);
    }
    assert(reads(state, priority, seeds, filling(state, t7)));

    // PERCENT-COMPLETE, where it is not zero.
    let t8 = TaskView { progress: task.progress, ..t7 };
    let progress = if task.progress != 0 {
        priority.push(property("PERCENT-COMPLETE"@, decimal_text(task.progress as nat)))
    } else {
        priority
    };
    if task.progress != 0 {
        let p_progress = property("PERCENT-COMPLETE"@, decimal_text(task.progress as nat));
        lemma_byte_text_reads_back(task.progress);
        lemma_decimal_text_value(task.progress as nat);
        lemma_field_results(t7, p_progress.value);
        lemma_reads_field(state, priority, t7, p_progress, seeds, t8);
    } else {
        assert(t8 == t7);
    }
    assert(reads(state, progress, seeds, filling(state, t8)));

    // STATUS
    let written_status = if task.completed {
        Status::Completed
    } else {
        task.status
    };
    let p_status = property(
        "STATUS"@,
        if task.completed {
            "COMPLETED"@
        } else {
            status_text(task.status)
        },
    );
    assert(p_status.value == status_text(written_status));
    lemma_status_text_reads_back(written_status);
    let t9 = TaskView {
        status: written_status,
        completed: written_status == Status::Completed,
        ..t8
    };
    let status = progress.push(p_status);
    lemma_field_results(t8, p_status.value);
    lemma_reads_field(state, progress, t8, p_status, seeds, t9);

    // DESCRIPTION, where it is not empty.
    let t10 = TaskView { description: task.description, ..t9 };
    let description = if task.description.len() > 0 {
        status.push(property("DESCRIPTION"@, escaped(task.description)))
    } else {
        status
    };
    if task.description.len() > 0 {
        let p_description = property("DESCRIPTION"@, escaped(task.description));
        lemma_escaped_len(task.description);
        lemma_unescape_escape(task.description);
        lemma_field_results(t9, p_description.value);
        lemma_reads_field(state, status, t9, p_description, seeds, t10);
    } else {
        assert(task.description == Seq::<char>::empty());
        assert(t10 == t9);
    }
    assert(reads(state, description, seeds, filling(state, t10)));

    // END:VTODO closes the task.
    let p_end = property("END"@, "VTODO"@);
    assert(t10 == restored(task));
    lemma_closes(state, t10, later);
    lemma_reads_one_more(
        state,
        description,
        p_end,
        seeds,
        filling(state, t10),
        closed_with(state, t10),
    );
    assert(description.push(p_end) == task_properties(task, now));
}

/// The tasks that decoding gives back for tasks that encoding wrote.
pub open spec fn restored_all(tasks: Seq<TaskView>) -> Seq<TaskView> {
    tasks.map_values(|t: TaskView| restored(t))
}

/// Decoding the blocks that encoding writes for a sequence of tasks adds the
/// restored tasks to the list, in order.
proof fn lemma_tasks_read_back(
    state: DecodeState,
    tasks: Seq<TaskView>,
    now: TimestampView,
    seeds: Seq<TaskSeedView>,
)
    requires
        !state.open,
        now.has_plain_year(),
        forall|i: int| 0 <= i < tasks.len() ==> round_trips(#[trigger] tasks[i]),
    ensures
        reads(
            state,
            tasks_properties(tasks, now),
            seeds,
            DecodeState {
                list: TaskListView {
                    tasks: state.list.tasks + restored_all(tasks),
                    ..state.list
                },
                open: false,
            },
        ),
    decreases tasks.len(),
{
    if tasks.len() == 0 {
        assert(read_back_all(Seq::<WrittenProperty>::empty()) == Seq::<PropertyLineView>::empty());
        assert(state.list.tasks + restored_all(tasks) == state.list.tasks);
    } else {
        let rest = tasks.drop_last();
        let mid = DecodeState {
            list: TaskListView {
                tasks: state.list.tasks + restored_all(rest),
                ..state.list
            },
            open: false,
        };
        lemma_tasks_read_back(state, rest, now, seeds);
        lemma_task_reads_back(mid, tasks.last(), now, seeds);
        let end = closed_with(mid, restored(tasks.last()));
        lemma_reads_joined(
            state,
            tasks_properties(rest, now),
            task_properties(tasks.last(), now),
            seeds,
            mid,
            end,
        );
        assert(end.list.tasks == state.list.tasks + restored_all(tasks));
    }
}

/// The list that decoding gives back for a list that encoding wrote.
pub open spec fn restored_list(list: TaskListView) -> TaskListView {
    TaskListView { name: list.name, tasks: restored_all(list.tasks), color: list.color }
}

/// Whether a list is one that decoding gives back from what encoding
/// writes: it has a name, and each of its tasks round-trips.
pub open spec fn list_round_trips(list: TaskListView) -> bool {
    &&& list.name.len() > 0
    &&& forall|i: int| 0 <= i < list.tasks.len() ==> round_trips(#[trigger] list.tasks[i])
}

/// Round trip. Decoding the properties that encoding writes for a list, each
/// read as its name and value, gives the list back whatever the seeds: the
/// same name and colour, and for each task the same identifier, summary,
/// progress, priority, due date and description, the time of creation to the
/// second, and the status with the precedence of the completed mark. This holds for a list with a name
/// whose tasks have a summary, dates with a year from 0 to 9999, and no
/// backslash directly before a letter `n` in the description, written at a
/// time with such a year.
pub proof fn lemma_decode_encode_round_trip(
    list: TaskListView,
    now: TimestampView,
    seeds: Seq<TaskSeedView>,
)
    requires
        list_round_trips(list),
        now.has_plain_year(),
    ensures
        decode(read_back_all(list_properties(list, now)), seeds) == Ok::<
            TaskListView,
            ParseFromFileError,
        >(restored_list(list)),
{
    let start = DecodeState::start();
    let head = after_header(list);
    let body = DecodeState { list: restored_list(list), open: false };
    let header = header_properties(list);
    let blocks = tasks_properties(list.tasks, now);
    let p_end = property("END"@, "VCALENDAR"@);
    lemma_header_reads_back(list, seeds);
    lemma_tasks_read_back(head, list.tasks, now, seeds);
    assert(head.list.tasks + restored_all(list.tasks) == restored_all(list.tasks));
    lemma_reads_joined(start, header, blocks, seeds, head, body);
    lemma_names();
    lemma_values();
    lemma_reads_one_more(start, header + blocks, p_end, seeds, body, body);
    assert((header + blocks).push(p_end) == list_properties(list, now));
    lemma_decode_state_from_start(read_back_all(list_properties(list, now)), seeds);
}

/// Precedence of the completed mark. A task that is marked completed comes
/// back from encoding and decoding with the status `Completed`, whatever its
/// status was, and still marked completed.
pub proof fn lemma_completed_takes_precedence(
    list: TaskListView,
    now: TimestampView,
    seeds: Seq<TaskSeedView>,
    i: int,
)
    requires
        list_round_trips(list),
        now.has_plain_year(),
        0 <= i < list.tasks.len(),
        list.tasks[i].completed,
    ensures
        decode(read_back_all(list_properties(list, now)), seeds) matches Ok(back)
            && back.tasks.len() == list.tasks.len() && back.tasks[i].status == Status::Completed
            && back.tasks[i].completed,
{
    lemma_decode_encode_round_trip(list, now, seeds);
}

/// Whether one of the properties has the given name.
pub open spec fn writes(properties: Seq<WrittenProperty>, name: Seq<char>) -> bool {
    exists|k: int| 0 <= k < properties.len() && (#[trigger] properties[k]).name == name
}

/// Zero is left out. For a task without priority no `PRIORITY` is written,
/// and for a task without progress no `PERCENT-COMPLETE`.
pub proof fn lemma_zero_is_left_out(task: TaskView, now: TimestampView)
    ensures
        task.priority == 0 ==> !writes(task_properties(task, now), "PRIORITY"@),
        task.progress == 0 ==> !writes(task_properties(task, now), "PERCENT-COMPLETE"@),
{
    lemma_names();
    let ps = task_properties(task, now);
    let start = block_start(task, now);
    let due = match task.due {
        Some(d) => start.push(property("DUE"@, timestamp_text(d.midnight()))),
        None => start,
    };
    let priority = if task.priority != 0 {
        due.push(property("PRIORITY"@, decimal_text(task.priority as nat)))
    } else {
        due
    };
    let progress = if task.progress != 0 {
        priority.push(property("PERCENT-COMPLETE"@, decimal_text(task.progress as nat)))
    } else {
        priority
    };
    assert forall|k: int| 0 <= k < start.len() implies (#[trigger] start[k]).name != "PRIORITY"@
        && start[k].name != "PERCENT-COMPLETE"@ by {}
    assert forall|k: int| 0 <= k < due.len() implies (#[trigger] due[k]).name != "PRIORITY"@
        && due[k].name != "PERCENT-COMPLETE"@ by {
        if k < start.len() {
            assert(due[k] == start[k]);
        }
    }
    assert forall|k: int| 0 <= k < priority.len() implies (task.priority == 0 ==> (
    #[trigger] priority[k]).name != "PRIORITY"@) && priority[k].name != "PERCENT-COMPLETE"@ by {
        if k < due.len() {
            assert(priority[k] == due[k]);
        }
    }
    assert forall|k: int| 0 <= k < progress.len() implies (task.priority == 0 ==> (
    #[trigger] progress[k]).name != "PRIORITY"@) && (task.progress == 0 ==> progress[k].name
        != "PERCENT-COMPLETE"@) by {
        if k < priority.len() {
            assert(progress[k] == priority[k]);
        }
    }
    assert forall|k: int| 0 <= k < ps.len() implies (task.priority == 0 ==> (#[trigger] ps[k]).name
        != "PRIORITY"@) && (task.progress == 0 ==> ps[k].name != "PERCENT-COMPLETE"@) by {
        if k < progress.len() {
            assert(ps[k] == progress[k]);
        }
    }
}

/// Zero comes back. A priority and a progress of zero, for which nothing is
/// written, are zero again after encoding and decoding.
pub proof fn lemma_zero_reads_back(
    list: TaskListView,
    now: TimestampView,
    seeds: Seq<TaskSeedView>,
    i: int,
)
    requires
        list_round_trips(list),
        now.has_plain_year(),
        0 <= i < list.tasks.len(),
    ensures
        decode(read_back_all(list_properties(list, now)), seeds) matches Ok(back)
            && back.tasks.len() == list.tasks.len() && (list.tasks[i].priority == 0
            ==> back.tasks[i].priority == 0) && (list.tasks[i].progress == 0
            ==> back.tasks[i].progress == 0),
{
    lemma_decode_encode_round_trip(list, now, seeds);
}

/// Line breaks come back. A description is the same after encoding and
/// decoding, line breaks included.
pub proof fn lemma_description_reads_back(
    list: TaskListView,
    now: TimestampView,
    seeds: Seq<TaskSeedView>,
    i: int,
)
    requires
        list_round_trips(list),
        now.has_plain_year(),
        0 <= i < list.tasks.len(),
    ensures
        decode(read_back_all(list_properties(list, now)), seeds) matches Ok(back)
            && back.tasks.len() == list.tasks.len() && back.tasks[i].description
            == list.tasks[i].description,
{
    lemma_decode_encode_round_trip(list, now, seeds);
}

/// Whether a task comes back from encoding and decoding exactly as it was:
/// its time of creation has no fraction of a second, and it is marked
/// completed exactly if its status is `Completed`.
pub open spec fn is_settled(task: TaskView) -> bool {
    &&& task.created == task.created.whole_second()
    &&& task.completed <==> task.status == Status::Completed
}

/// Exact round trip. A list whose tasks are settled is the same after
/// encoding and decoding.
pub proof fn lemma_settled_list_round_trips(
    list: TaskListView,
    now: TimestampView,
    seeds: Seq<TaskSeedView>,
)
    requires
        list_round_trips(list),
        now.has_plain_year(),
        forall|i: int| 0 <= i < list.tasks.len() ==> is_settled(#[trigger] list.tasks[i]),
    ensures
        decode(read_back_all(list_properties(list, now)), seeds) == Ok::<
            TaskListView,
            ParseFromFileError,
        >(list),
{
    lemma_decode_encode_round_trip(list, now, seeds);
    assert(restored_all(list.tasks) == list.tasks) by {
        assert forall|i: int| 0 <= i < list.tasks.len() implies restored(list.tasks[i])
            == list.tasks[i] by {
            assert(is_settled(list.tasks[i]));
        }
    }
}

} // verus!
