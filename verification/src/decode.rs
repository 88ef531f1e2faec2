//! Decoding: from property lines to a task list.

use crate::color::{color_of_text, parse_color};
use crate::date::{parse_timestamp, timestamp_of_text, Timestamp, TimestampView};
use crate::ident::{parse_id, id_of_text};
use crate::lexer::{lines_view, PropertyLine, PropertyLineView};
use crate::parser::ParseFromFileError;
use crate::task::{tasks_view, Status, Task, TaskList, TaskListView, TaskView};
use crate::text::{byte_of_text, parse_byte, same, string_of, unescape, unescaped};
use vstd::prelude::*;

verus! {

/// What a new task takes from outside the file: its identifier and its time
/// of creation, both of which the file may then replace.
#[derive(Clone, Copy, Debug, PartialEq, Eq)]
pub struct TaskSeed {
    pub uuid: u128,
    pub created: Timestamp,
}

/// A seed as a mathematical value.
pub struct TaskSeedView {
    pub uuid: u128,
    pub created: TimestampView,
}

impl View for TaskSeed {
    type V = TaskSeedView;

    open spec fn view(&self) -> TaskSeedView {
        TaskSeedView { uuid: self.uuid, created: self.created@ }
    }
}

/// The mathematical values of a sequence of seeds.
pub open spec fn seeds_view(seeds: Seq<TaskSeed>) -> Seq<TaskSeedView> {
    seeds.map_values(|s: TaskSeed| s@)
}

/// Where decoding stands: the list read so far, and whether its last task is
/// still open, that is, whether the cursor stands on it.
pub struct DecodeState {
    pub list: TaskListView,
    pub open: bool,
}

impl DecodeState {
    /// The state before the first line.
    pub open spec fn start() -> DecodeState {
        DecodeState { list: TaskListView::empty(), open: false }
    }

    /// Whether a property of a task has a task to go to.
    pub open spec fn has_cursor(self) -> bool {
        self.open && self.list.tasks.len() > 0
    }

    /// The task at the cursor.
    pub open spec fn current(self) -> TaskView {
        self.list.tasks.last()
    }

    /// The state with the task at the cursor replaced.
    pub open spec fn with_current(self, task: TaskView) -> DecodeState {
        DecodeState {
            list: TaskListView {
                tasks: self.list.tasks.update(self.list.tasks.len() - 1, task),
                ..self.list
            },
            ..self
        }
    }
}

/// Whether a property with this name sets a field of the task at the cursor.
pub open spec fn is_task_field(name: Seq<char>) -> bool {
    ||| name == "UID"@
    ||| name == "SUMMARY"@
    ||| name == "DUE"@
    ||| name == "PRIORITY"@
    ||| name == "PERCENT-COMPLETE"@
    ||| name == "STATUS"@
    ||| name == "DESCRIPTION"@
    ||| name == "CREATED"@
}

/// The status that a token of a `STATUS` property names.
pub open spec fn status_of_text(value: Seq<char>) -> Option<Status> {
    if value == "IN-PROGRESS"@ {
        Some(Status::InProgress)
    } else if value == "NEEDS-ACTION"@ {
        Some(Status::NeedsAction)
    } else if value == "COMPLETED"@ {
        Some(Status::Completed)
    } else if value == "CANCELLED"@ {
        Some(Status::Cancelled)
    } else {
        None
    }
}

/// The task at the cursor after a property that sets one of its fields, or
/// `InvalidField` where the value cannot be read. An identifier that cannot
/// be read leaves the task as it is, and so does any other name.
pub open spec fn set_task_field(task: TaskView, name: Seq<char>, value: Seq<char>) -> Result<
    TaskView,
    ParseFromFileError,
> {
    if name == "UID"@ {
        match id_of_text(value) {
            Some(uuid) => Ok(TaskView { uuid, ..task }),
            None => Ok(task),
        }
    } else if name == "SUMMARY"@ {
        Ok(TaskView { summary: value, ..task })
    } else if name == "DUE"@ {
        match timestamp_of_text(value) {
            Some(t) => Ok(TaskView { due: Some(t.date), ..task }),
            None => Err(ParseFromFileError::InvalidField),
        }
    } else if name == "PRIORITY"@ {
        match byte_of_text(value) {
            Some(priority) => Ok(TaskView { priority, ..task }),
            None => Err(ParseFromFileError::InvalidField),
        }
    } else if name == "PERCENT-COMPLETE"@ {
        match byte_of_text(value) {
            Some(progress) => Ok(TaskView { progress, ..task }),
            None => Err(ParseFromFileError::InvalidField),
        }
    } else if name == "STATUS"@ {
        match status_of_text(value) {
            Some(status) => Ok(
                TaskView {
                    status,
                    completed: task.completed || status == Status::Completed,
                    ..task
                },
            ),
            None => Err(ParseFromFileError::InvalidField),
        }
    } else if name == "DESCRIPTION"@ {
        Ok(TaskView { description: unescaped(value), ..task })
    } else if name == "CREATED"@ {
        match timestamp_of_text(value) {
            Some(created) => Ok(TaskView { created, ..task }),
            None => Err(ParseFromFileError::InvalidField),
        }
    } else {
        Ok(task)
    }
}

/// The state after a property with a value. `seed` is what a task takes if
/// the property opens one.
pub open spec fn decode_property(
    state: DecodeState,
    name: Seq<char>,
    value: Seq<char>,
    seed: TaskSeedView,
) -> Result<DecodeState, ParseFromFileError> {
    if name == "X-WR-CALNAME"@ {
        Ok(DecodeState { list: TaskListView { name: value, ..state.list }, ..state })
    } else if name == "X-APPLE-CALENDAR-COLOR"@ {
        match color_of_text(value) {
            Some(color) => Ok(DecodeState { list: TaskListView { color, ..state.list }, ..state }),
            None => Ok(state),
        }
    } else if name == "BEGIN"@ {
        if value == "VTODO"@ {
            Ok(
                DecodeState {
                    list: TaskListView {
                        tasks: state.list.tasks.push(TaskView::fresh(seed.uuid, seed.created)),
                        ..state.list
                    },
                    open: true,
                },
            )
        } else if value == "VCALENDAR"@ {
            Ok(state)
        } else {
            Err(ParseFromFileError::NonTaskItem)
        }
    } else if name == "END"@ {
        if value == "VTODO"@ {
            Ok(DecodeState { open: false, ..state })
        } else {
            Ok(state)
        }
    } else if is_task_field(name) {
        if state.has_cursor() {
            match set_task_field(state.current(), name, value) {
                Ok(task) => Ok(state.with_current(task)),
                Err(e) => Err(e),
            }
        } else {
            Err(ParseFromFileError::InvalidFile)
        }
    } else {
        Ok(state)
    }
}

/// The state after one line: a malformed line fails with `InvalidFile`, a
/// property without a value with `InvalidField`, whatever its name.
pub open spec fn decode_line(state: DecodeState, line: PropertyLineView, seed: TaskSeedView) -> Result<
    DecodeState,
    ParseFromFileError,
> {
    match line {
        PropertyLineView::Malformed => Err(ParseFromFileError::InvalidFile),
        PropertyLineView::Property { name, value: None } => Err(ParseFromFileError::InvalidField),
        PropertyLineView::Property { name, value: Some(value) } => decode_property(
            state,
            name,
            value,
            seed,
        ),
    }
}

/// The state after all of `lines`, read in order from the start, or the
/// error of the first line that fails. The task that the line opens as the
/// `k`-th of the file, counted from 0, takes `seeds[k]`.
pub open spec fn decode_state(lines: Seq<PropertyLineView>, seeds: Seq<TaskSeedView>) -> Result<
    DecodeState,
    ParseFromFileError,
>
    decreases lines.len(),
{
    if lines.len() == 0 {
        Ok(DecodeState::start())
    } else {
        match decode_state(lines.drop_last(), seeds) {
            Ok(state) => decode_line(state, lines.last(), seeds[state.list.tasks.len() as int]),
            Err(e) => Err(e),
        }
    }
}

/// The task list that `lines` decode to, or the error of the first line that
/// fails.
pub open spec fn decode(lines: Seq<PropertyLineView>, seeds: Seq<TaskSeedView>) -> Result<
    TaskListView,
    ParseFromFileError,
> {
    match decode_state(lines, seeds) {
        Ok(state) => Ok(state.list),
        Err(e) => Err(e),
    }
}

/// Whether a line opens a task.
pub open spec fn opens_task(line: PropertyLineView) -> bool {
    line matches PropertyLineView::Property { name, value: Some(value) } && name == "BEGIN"@
        && value == "VTODO"@
}

/// The number of lines that open a task.
pub open spec fn task_blocks(lines: Seq<PropertyLineView>) -> nat
    decreases lines.len(),
{
    if lines.len() == 0 {
        0
    } else {
        task_blocks(lines.drop_last()) + if opens_task(lines.last()) {
            1nat
        } else {
            0nat
        }
    }
}

/// Reads the token of a `STATUS` property.
fn parse_status(value: &str) -> (r: Option<Status>)
    ensures
        r == status_of_text(value@),
{
    if same(value, "IN-PROGRESS") {
        Some(Status::InProgress)
    } else if same(value, "NEEDS-ACTION") {
        Some(Status::NeedsAction)
    } else if same(value, "COMPLETED") {
        Some(Status::Completed)
    } else if same(value, "CANCELLED") {
        Some(Status::Cancelled)
    } else {
        None
    }
}

/// Whether a property with this name sets a field of a task.
fn names_task_field(name: &str) -> (r: bool)
    ensures
        r == is_task_field(name@),
{
    same(name, "UID") || same(name, "SUMMARY") || same(name, "DUE") || same(name, "PRIORITY")
        || same(name, "PERCENT-COMPLETE") || same(name, "STATUS") || same(name, "DESCRIPTION")
        || same(name, "CREATED")
}

/// Sets the field of `task` that the property names. On an error the task is
/// as it was.
fn set_field(task: &mut Task, name: &str, value: &str) -> (r: Result<(), ParseFromFileError>)
    requires
        is_task_field(name@),
    ensures
        match set_task_field(old(task)@, name@, value@) {
            Ok(t) => r is Ok && final(task)@ == t,
            Err(e) => r == Err::<(), ParseFromFileError>(e) && final(task)@ == old(task)@,
        },
{
    if same(name, "UID") {
        match parse_id(value) {
            Some(uuid) => {
                task.uuid = uuid;
            },
            None => {},
        }
    } else if same(name, "SUMMARY") {
        task.summary = value.to_owned();
    } else if same(name, "DUE") {
        match parse_timestamp(value) {
            Some(t) => {
                task.due = Some(t.date());
            },
            None => {
                return Err(ParseFromFileError::InvalidField);
            },
        }
    } else if same(name, "PRIORITY") {
        match parse_byte(value) {
            Some(priority) => {
                task.priority = priority;
            },
            None => {
                return Err(ParseFromFileError::InvalidField);
            },
        }
    } else if same(name, "PERCENT-COMPLETE") {
        match parse_byte(value) {
            Some(progress) => {
                task.progress = progress;
            },
            None => {
                return Err(ParseFromFileError::InvalidField);
            },
        }
    } else if same(name, "STATUS") {
        match parse_status(value) {
            Some(status) => {
                task.status = status;
                if status == Status::Completed {
                    task.completed = true;
                }
            },
            None => {
                return Err(ParseFromFileError::InvalidField);
            },
        }
    } else if same(name, "DESCRIPTION") {
        let text = unescape(value);
        task.description = string_of(&text);
    } else {
        match parse_timestamp(value) {
            Some(created) => {
                task.created = created;
            },
            None => {
                return Err(ParseFromFileError::InvalidField);
            },
        }
    }
    Ok(())
}

/// Applies one property with a value to the list read so far.
fn apply_property(
    list: &mut TaskList,
    open: &mut bool,
    name: &str,
    value: &str,
    seeds: &Vec<TaskSeed>,
) -> (r: Result<(), ParseFromFileError>)
    requires
        name@ == "BEGIN"@ && value@ == "VTODO"@ ==> old(list).tasks.len() < seeds.len(),
    ensures
        match decode_property(
            DecodeState { list: old(list)@, open: *old(open) },
            name@,
            value@,
            seeds_view(seeds@)[old(list).tasks.len() as int],
        ) {
            Ok(state) => r is Ok && final(list)@ == state.list && *final(open) == state.open,
            Err(e) => r == Err::<(), ParseFromFileError>(e),
        },
{
    if same(name, "X-WR-CALNAME") {
        list.name = value.to_owned();
    } else if same(name, "X-APPLE-CALENDAR-COLOR") {
        match parse_color(value) {
            Some(color) => {
                list.color = color;
            },
            None => {},
        }
    } else if same(name, "BEGIN") {
        if same(value, "VTODO") {
            let seed = seeds[list.tasks.len()];
            let task = Task::new(seed.uuid, seed.created);
            proof {
                assert(tasks_view(list.tasks@.push(task)) == tasks_view(list.tasks@).push(task@));
            }
            list.tasks.push(task);
            *open = true;
        } else if !same(value, "VCALENDAR") {
            return Err(ParseFromFileError::NonTaskItem);
        }
    } else if same(name, "END") {
        if same(value, "VTODO") {
            *open = false;
        }
    } else if names_task_field(name) {
        if !*open || list.tasks.len() == 0 {
            return Err(ParseFromFileError::InvalidFile);
        }
        let ghost before = list.tasks@;
        let mut task = list.tasks.pop().unwrap();
        let outcome = set_field(&mut task, name, value);
        proof {
            let rest = before.drop_last();
            assert(tasks_view(rest.push(task)) == tasks_view(before).update(
                before.len() - 1,
                task@,
            ));
            assert(tasks_view(before)[before.len() - 1] == before.last()@);
        }
        list.tasks.push(task);
        return outcome;
    }
    Ok(())
}

/// The number of lines opening a task does not shrink as lines are added.
pub proof fn lemma_task_blocks_prefix(lines: Seq<PropertyLineView>, k: int)
    requires
        0 <= k <= lines.len(),
    ensures
        task_blocks(lines.take(k)) <= task_blocks(lines),
    decreases lines.len() - k,
{
    if k == lines.len() {
        assert(lines.take(k) == lines);
    } else {
        lemma_task_blocks_prefix(lines, k + 1);
        assert(lines.take(k + 1).drop_last() == lines.take(k));
    }
}

/// A list has as many tasks as the lines read so far have opened.
pub proof fn lemma_decode_opens_tasks(lines: Seq<PropertyLineView>, seeds: Seq<TaskSeedView>)
    ensures
        decode_state(lines, seeds) matches Ok(state) ==> state.list.tasks.len() == task_blocks(
            lines,
        ),
    decreases lines.len(),
{
    if lines.len() > 0 {
        lemma_decode_opens_tasks(lines.drop_last(), seeds);
        if let Ok(state) = decode_state(lines.drop_last(), seeds) {
            lemma_decode_line_opens_task(
                state,
                lines.last(),
                seeds[state.list.tasks.len() as int],
            );
        }
    }
}

/// A line adds a task to the list exactly when it opens one.
pub proof fn lemma_decode_line_opens_task(
    state: DecodeState,
    line: PropertyLineView,
    seed: TaskSeedView,
)
    ensures
        decode_line(state, line, seed) matches Ok(next) ==> next.list.tasks.len()
            == state.list.tasks.len() + if opens_task(line) {
            1nat
        } else {
            0nat
        },
{
    reveal_strlit("BEGIN");
    reveal_strlit("X-WR-CALNAME");
    reveal_strlit("X-APPLE-CALENDAR-COLOR");
    assert("BEGIN"@.len() == 5);
    assert("X-WR-CALNAME"@.len() == 12);
    assert("X-APPLE-CALENDAR-COLOR"@.len() == 22);
    match line {
        PropertyLineView::Property { name, value: Some(value) } => {
            if name == "X-WR-CALNAME"@ {
                assert(!opens_task(line));
            } else if name == "X-APPLE-CALENDAR-COLOR"@ {
                assert(!opens_task(line));
            } else if name == "BEGIN"@ {
            } else if name == "END"@ {
            } else if is_task_field(name) {
                if state.has_cursor() {
                    if let Ok(task) = set_task_field(state.current(), name, value) {
                        assert(state.with_current(task).list.tasks.len()
                            == state.list.tasks.len());
                    }
                }
            } else {
            }
        },
        _ => {},
    }
}

impl TaskList {
    /// Decodes property lines to a task list: one pass, line by line, that
    /// stops at the first line that fails. The task that a line opens as the
    /// `k`-th, counted from 0, starts from `seeds[k]`.
    pub fn from_properties(lines: &Vec<PropertyLine>, seeds: &Vec<TaskSeed>) -> (r: Result<
        TaskList,
        ParseFromFileError,
    >)
        requires
            task_blocks(lines_view(lines@)) <= seeds.len(),
        ensures
            match decode(lines_view(lines@), seeds_view(seeds@)) {
                Ok(list) => r matches Ok(l) && l@ == list,
                Err(e) => r == Err::<TaskList, ParseFromFileError>(e),
            },
    {
        let mut list = TaskList::default();
        let mut open = false;
        let ghost all = lines_view(lines@);
        let ghost given = seeds_view(seeds@);
        let mut i: usize = 0;
        proof {
            assert(all.take(0) == Seq::<PropertyLineView>::empty());
        }
        while i < lines.len()
            invariant
                i <= lines.len(),
                all == lines_view(lines@),
                given == seeds_view(seeds@),
                task_blocks(all) <= seeds.len(),
                decode_state(all.take(i as int), given) == Ok::<DecodeState, ParseFromFileError>(
                    DecodeState { list: list@, open },
                ),
            decreases lines.len() - i,
        {
            let ghost before = DecodeState { list: list@, open };
            proof {
                assert(all.take(i + 1).drop_last() == all.take(i as int));
                assert(all.take(i + 1).last() == lines@[i as int]@);
                lemma_decode_opens_tasks(all.take(i as int), given);
                lemma_task_blocks_prefix(all, i + 1);
            }
            let outcome = match &lines[i] {
                PropertyLine::Malformed => Err(ParseFromFileError::InvalidFile),
                PropertyLine::Property { name, value: None } => Err(
                    ParseFromFileError::InvalidField,
                ),
                PropertyLine::Property { name, value: Some(value) } => apply_property(
                    &mut list,
                    &mut open,
                    name.as_str(),
                    value.as_str(),
                    seeds,
                ),
            };
            match outcome {
                Ok(()) => {},
                Err(e) => {
                    proof {
                        lemma_decode_error_stays(all, given, i + 1);
                    }
                    return Err(e);
                },
            }
            i += 1;
        }
        proof {
            assert(all.take(i as int) == all);
        }
        Ok(list)
    }
}

/// Once a line has failed, the lines after it change nothing.
pub proof fn lemma_decode_error_stays(
    lines: Seq<PropertyLineView>,
    seeds: Seq<TaskSeedView>,
    k: int,
)
    requires
        0 <= k <= lines.len(),
        decode_state(lines.take(k), seeds) is Err,
    ensures
        decode_state(lines, seeds) == decode_state(lines.take(k), seeds),
    decreases lines.len() - k,
{
    if k == lines.len() {
        assert(lines.take(k) == lines);
    } else {
        assert(lines.take(k + 1).drop_last() == lines.take(k));
        lemma_decode_error_stays(lines, seeds, k + 1);
    }
}

/// Counts the lines that open a task.
pub fn count_task_blocks(lines: &Vec<PropertyLine>) -> (n: usize)
    ensures
        n == task_blocks(lines_view(lines@)),
{
    let ghost all = lines_view(lines@);
    let mut n: usize = 0;
    let mut i: usize = 0;
    proof {
        assert(all.take(0) == Seq::<PropertyLineView>::empty());
    }
    while i < lines.len()
        invariant
            i <= lines.len(),
            all == lines_view(lines@),
            n == task_blocks(all.take(i as int)),
            n <= i,
        decreases lines.len() - i,
    {
        proof {
            assert(all.take(i + 1).drop_last() == all.take(i as int));
            assert(all.take(i + 1).last() == lines@[i as int]@);
        }
        let opens = match &lines[i] {
            PropertyLine::Property { name, value: Some(value) } => same(name.as_str(), "BEGIN")
                && same(value.as_str(), "VTODO"),
            _ => false,
        };
        if opens {
            n += 1;
        }
        i += 1;
    }
    proof {
        assert(all.take(i as int) == all);
    }
    n
}

/// A property of a task leaves a consistent task consistent.
proof fn lemma_field_keeps_consistent(task: TaskView, name: Seq<char>, value: Seq<char>)
    requires
        task.is_consistent(),
    ensures
        set_task_field(task, name, value) matches Ok(next) ==> next.is_consistent(),
{
}

/// A line leaves a consistent list consistent.
proof fn lemma_line_keeps_consistent(state: DecodeState, line: PropertyLineView, seed: TaskSeedView)
    requires
        state.list.is_consistent(),
    ensures
        decode_line(state, line, seed) matches Ok(next) ==> next.list.is_consistent(),
{
    if let Ok(next) = decode_line(state, line, seed) {
        match line {
            PropertyLineView::Property { name, value: Some(value) } => {
                if state.has_cursor() {
                    lemma_field_keeps_consistent(state.current(), name, value);
                }
                assert forall|i: int| 0 <= i < next.list.tasks.len() implies (
                #[trigger] next.list.tasks[i]).is_consistent() by {
                    if i < state.list.tasks.len() {
                        assert(state.list.tasks[i].is_consistent());
                    }
                }
            },
            _ => {},
        }
    }
}

/// Every task of a decoded list whose status is `Completed` is marked
/// completed.
pub proof fn lemma_decode_consistent(lines: Seq<PropertyLineView>, seeds: Seq<TaskSeedView>)
    ensures
        decode(lines, seeds) matches Ok(list) ==> list.is_consistent(),
    decreases lines.len(),
{
    if lines.len() > 0 {
        lemma_decode_consistent(lines.drop_last(), seeds);
        if let Ok(state) = decode_state(lines.drop_last(), seeds) {
            lemma_line_keeps_consistent(
                state,
                lines.last(),
                seeds[state.list.tasks.len() as int],
            );
        }
    }
}

} // verus!
