//! Reading a task list from the text of a calendar file, and writing one.

use crate::date::{current_time, TimestampView};
use crate::decode::{
    count_task_blocks, decode, seeds_view, task_blocks, TaskSeed, TaskSeedView,
};
use crate::encode::ical_text;
use crate::ident::fresh_id;
use crate::lexer::{ical_properties, property_lines};
use crate::task::TaskList;
use vstd::prelude::*;

verus! {

/// Why the text of a calendar file could not be read as a task list.
#[derive(Clone, Copy, Debug, PartialEq, Eq, Structural)]
pub enum ParseFromFileError {
    /// A line could not be split into a name and a value, or a property of a
    /// task stood where no task was open.
    InvalidFile,
    /// The file holds a component that is neither a calendar nor a to-do: a
    /// block this codec does not support.
    NonTaskItem,
    /// A property had no value, or a value that could not be read.
    InvalidField,
}

/// Whether every seed holds a valid time of creation.
pub open spec fn seeds_valid(seeds: Seq<TaskSeedView>) -> bool {
    forall|i: int| 0 <= i < seeds.len() ==> (#[trigger] seeds[i]).created.is_valid()
}

/// Whether `r` is what the text decodes to when the tasks it opens start
/// from `seeds`.
pub open spec fn reads_as(
    text: Seq<char>,
    seeds: Seq<TaskSeedView>,
    r: Result<TaskList, ParseFromFileError>,
) -> bool {
    match decode(ical_properties(text), seeds) {
        Ok(list) => r matches Ok(l) && l@ == list,
        Err(e) => r == Err::<TaskList, ParseFromFileError>(e),
    }
}

impl TaskList {
    /// Reads a task list from the text of a calendar file. Each task that the
    /// file opens starts with a random identifier and the time of reading as
    /// its time of creation; the file's own `UID` and `CREATED` replace them.
    /// The first line that fails ends the reading: there is no partial list.
    pub fn from_ical_file(text: &str) -> (r: Result<TaskList, ParseFromFileError>)
        ensures
            exists|seeds: Seq<TaskSeedView>|
                seeds.len() == task_blocks(ical_properties(text@)) && seeds_valid(seeds)
                    && #[trigger] reads_as(text@, seeds, r),
    {
        let lines = property_lines(text);
        let n = count_task_blocks(&lines);
        let mut seeds: Vec<TaskSeed> = Vec::new();
        while seeds.len() < n
            invariant
                seeds.len() <= n,
                seeds_valid(seeds_view(seeds@)),
            decreases n - seeds.len(),
        {
            let seed = TaskSeed { uuid: fresh_id(), created: current_time() };
            proof {
                assert(seeds_view(seeds@.push(seed)) == seeds_view(seeds@).push(seed@));
            }
            seeds.push(seed);
        }
        let r = TaskList::from_properties(&lines, &seeds);
        proof {
            assert(reads_as(text@, seeds_view(seeds@), r));
        }
        r
    }

    /// Writes the list as the text of a calendar file, with the time of the
    /// call in `LAST-MODIFIED` and `DTSTAMP`.
    pub fn to_ical_string(&self) -> (text: String)
        ensures
            exists|now: TimestampView| now.is_valid() && text@ == #[trigger] ical_text(self@, now),
    {
        let now = current_time();
        self.to_ical_string_at(&now)
    }
}

} // verus!
