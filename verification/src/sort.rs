//! Sorting a task list by one of its fields.

use crate::task::{tasks_view, Task, TaskList, TaskSort, TaskView};
use vstd::prelude::*;

verus! {

/// The text that std's `str::to_lowercase` gives for a text.
pub uninterp spec fn lowercase_of(s: Seq<char>) -> Seq<char>;

/// Calls std's `str::to_lowercase`. Trusted: the result depends on the text
/// alone.
#[verifier::external_body]
fn std_lowercase(s: &str) -> (r: String)
    ensures
        r@ == lowercase_of(s@),
{
    s.to_lowercase()
}

/// The code points of a text.
pub open spec fn code_points(s: Seq<char>) -> Seq<int> {
    s.map_values(|c: char| c as u32 as int)
}

/// The key by which a task is sorted: a sequence of numbers, compared from
/// the left. A text gives the code points of its lower case; a flag 0 or 1; a
/// status its rank; a due date 0 and then year, month and day, and a task
/// without one the single number 1, so that it comes after every date.
pub open spec fn sort_key(task: TaskView, by: TaskSort) -> Seq<int> {
    match by {
        TaskSort::Unsorted => Seq::empty(),
        TaskSort::Summary => code_points(lowercase_of(task.summary)),
        TaskSort::Completed => seq![if task.completed { 1int } else { 0int }],
        TaskSort::Description => code_points(lowercase_of(task.description)),
        TaskSort::Progress => seq![task.progress as int],
        TaskSort::Priority => seq![task.priority as int],
        TaskSort::Status => seq![task.status.rank()],
        TaskSort::Due => match task.due {
            Some(d) => seq![0int, d.year, d.month, d.day],
            None => seq![1int],
        },
    }
}

/// Whether key `a` comes strictly before key `b`: at the first place where
/// they differ `a` is smaller, or `a` ends there and `b` goes on.
pub open spec fn key_before(a: Seq<int>, b: Seq<int>) -> bool
    decreases a.len(),
{
    if b.len() == 0 {
        false
    } else if a.len() == 0 {
        true
    } else if a[0] != b[0] {
        a[0] < b[0]
    } else {
        key_before(a.drop_first(), b.drop_first())
    }
}

/// The numbers of a key, as mathematical integers.
pub open spec fn ints(key: Seq<i64>) -> Seq<int> {
    key.map_values(|x: i64| x as int)
}

/// Whether key `a` comes strictly before key `b`.
fn is_before(a: &Vec<i64>, b: &Vec<i64>) -> (r: bool)
    ensures
        r == key_before(ints(a@), ints(b@)),
{
    let ghost ka = ints(a@);
    let ghost kb = ints(b@);
    let mut i: usize = 0;
    proof {
        assert(ka.skip(0) == ka);
        assert(kb.skip(0) == kb);
    }
    while i < a.len() && i < b.len()
        invariant
            i <= a.len(),
            i <= b.len(),
            ka == ints(a@),
            kb == ints(b@),
            key_before(ka, kb) == key_before(ka.skip(i as int), kb.skip(i as int)),
        decreases a.len() - i,
    {
        proof {
            assert(ka.skip(i as int).drop_first() == ka.skip(i + 1));
            assert(kb.skip(i as int).drop_first() == kb.skip(i + 1));
            assert(ka.skip(i as int)[0] == a@[i as int] as int);
            assert(kb.skip(i as int)[0] == b@[i as int] as int);
        }
        if a[i] != b[i] {
            return a[i] < b[i];
        }
        i += 1;
    }
    i < b.len()
}

/// The key of a task.
fn key_of(task: &Task, by: TaskSort) -> (key: Vec<i64>)
    ensures
        ints(key@) == sort_key(task@, by),
{
    let mut key: Vec<i64> = Vec::new();
    match by {
        TaskSort::Unsorted => {},
        TaskSort::Summary => {
            return text_key(task.summary.as_str());
        },
        TaskSort::Completed => {
            key.push(if task.completed { 1 } else { 0 });
        },
        TaskSort::Description => {
            return text_key(task.description.as_str());
        },
        TaskSort::Progress => {
            key.push(task.progress as i64);
        },
        TaskSort::Priority => {
            key.push(task.priority as i64);
        },
        TaskSort::Status => {
            key.push(task.status.ordinal() as i64);
        },
        TaskSort::Due => match &task.due {
            Some(d) => {
                key.push(0);
                key.push(d.year() as i64);
                key.push(d.month() as i64);
                key.push(d.day() as i64);
            },
            None => {
                key.push(1);
            },
        },
    }
    assert(ints(key@) == sort_key(task@, by));
    key
}

/// The key of a text: the code points of its lower case.
fn text_key(s: &str) -> (key: Vec<i64>)
    ensures
        ints(key@) == code_points(lowercase_of(s@)),
{
    broadcast use vstd::string::group_string_axioms;

    let lower = std_lowercase(s);
    let mut key: Vec<i64> = Vec::new();
    for c in it: lower.as_str().chars()
        invariant
            it.seq() == lower@,
            ints(key@) == code_points(it.seq().take(it.index())),
    {
        proof {
            let done = it.seq().take(it.index());
            let more = it.seq().take(it.index() + 1);
            assert(more == done.push(c));
            let x = c as u32 as i64;
            assert(x as int == c as u32 as int);
            assert(ints(key@.push(x)) == ints(key@).push(x as int));
            assert(code_points(more) == code_points(done).push(c as u32 as int));
        }
        key.push(c as u32 as i64);
    }
    proof {
        assert(lower@.take(lower@.len() as int) == lower@);
    }
    key
}

/// Whether, of two tasks of a list given by their places `a` and `b`, the
/// one at `a` belongs before the other once the list is sorted: its key comes
/// first, or neither key comes first and `a` is the earlier place.
pub open spec fn belongs_before(tasks: Seq<TaskView>, by: TaskSort, a: int, b: int) -> bool {
    let ka = sort_key(tasks[a], by);
    let kb = sort_key(tasks[b], by);
    a != b && (key_before(ka, kb) || (!key_before(kb, ka) && a < b))
}

/// Whether `after` is `before` sorted by `by`, stably: `origin` gives for
/// each place of `after` the place in `before` that its task came from, and
/// of any two tasks the one that belongs before the other stands first. No
/// place occurs twice, so every task of `before` is in `after` once.
pub open spec fn is_stable_sort(
    before: Seq<TaskView>,
    after: Seq<TaskView>,
    by: TaskSort,
    origin: Seq<int>,
) -> bool {
    &&& after.len() == before.len()
    &&& origin.len() == before.len()
    &&& forall|i: int|
        0 <= i < origin.len() ==> 0 <= #[trigger] origin[i] < before.len() && after[i]
            == before[origin[i]]
    &&& forall|i: int, j: int|
        0 <= i < j < origin.len() ==> belongs_before(
            before,
            by,
            #[trigger] origin[i],
            #[trigger] origin[j],
        )
}

/// Of two keys at most one comes before the other.
pub proof fn lemma_key_before_asymmetric(a: Seq<int>, b: Seq<int>)
    requires
        key_before(a, b),
    ensures
        !key_before(b, a),
    decreases a.len(),
{
    if a.len() > 0 && b.len() > 0 && a[0] == b[0] {
        lemma_key_before_asymmetric(a.drop_first(), b.drop_first());
    }
}

/// If `a` does not come before `b`, nor `b` before `c`, then `a` does not
/// come before `c`.
pub proof fn lemma_key_not_before_transitive(a: Seq<int>, b: Seq<int>, c: Seq<int>)
    requires
        !key_before(a, b),
        !key_before(b, c),
    ensures
        !key_before(a, c),
    decreases a.len(),
{
    if c.len() > 0 {
        assert(b.len() > 0);
        assert(a.len() > 0);
        if a[0] == b[0] && b[0] == c[0] {
            lemma_key_not_before_transitive(a.drop_first(), b.drop_first(), c.drop_first());
        }
    }
}

/// What holds while the first `done` tasks are sorted and the rest stand
/// where they stood.
spec fn partly_sorted(
    before: Seq<TaskView>,
    tasks: Seq<Task>,
    keys: Seq<Vec<i64>>,
    origin: Seq<int>,
    by: TaskSort,
    done: int,
) -> bool {
    &&& tasks.len() == before.len()
    &&& keys.len() == before.len()
    &&& origin.len() == before.len()
    &&& forall|k: int|
        0 <= k < origin.len() ==> 0 <= #[trigger] origin[k] < before.len() && tasks[k]@
            == before[origin[k]] && ints(keys[k]@) == sort_key(before[origin[k]], by)
    &&& forall|k: int| done <= k < origin.len() ==> #[trigger] origin[k] == k
    &&& forall|k: int| 0 <= k < done ==> #[trigger] origin[k] < done
    &&& forall|a: int, b: int|
        0 <= a < b < done ==> belongs_before(before, by, #[trigger] origin[a], #[trigger] origin[b])
}

impl TaskList {
    /// Sorts the tasks by the given field, stably: tasks whose keys do not
    /// differ keep their order. Name and colour stay.
    pub fn sort(&mut self, sort_by: TaskSort)
        ensures
            final(self)@.name == old(self)@.name,
            final(self)@.color == old(self)@.color,
            exists|origin: Seq<int>| #[trigger]
                is_stable_sort(old(self)@.tasks, final(self)@.tasks, sort_by, origin),
            sort_by == TaskSort::Unsorted ==> final(self)@.tasks == old(self)@.tasks,
    {
        let ghost before = self@.tasks;
        let n = self.tasks.len();
        if sort_by == TaskSort::Unsorted {
            proof {
                let origin = Seq::new(n as nat, |m: int| m);
                assert(is_stable_sort(old(self)@.tasks, self@.tasks, sort_by, origin));
            }
            return ;
        }
        let mut keys: Vec<Vec<i64>> = Vec::new();
        let mut k: usize = 0;
        while k < n
            invariant
                k <= n,
                n == self.tasks.len(),
                keys.len() == k,
                before == old(self)@.tasks,
                self.name == old(self).name,
                self.color == old(self).color,
                before == tasks_view(self.tasks@),
                forall|m: int| 0 <= m < k ==> ints(#[trigger] keys[m]@) == sort_key(before[m], sort_by),
            decreases n - k,
        {
            let key = key_of(&self.tasks[k], sort_by);
            keys.push(key);
            k += 1;
        }
        let ghost mut origin = Seq::new(n as nat, |m: int| m);
        let mut i: usize = 0;
        while i < n
            invariant
                i <= n,
                n == before.len(),
                before == old(self)@.tasks,
                self.name == old(self).name,
                self.color == old(self).color,
                partly_sorted(before, self.tasks@, keys@, origin, sort_by, i as int),
            decreases n - i,
        {
            let mut j: usize = i;
            while j > 0 && is_before(&keys[i], &keys[j - 1])
                invariant
                    j <= i < n,
                    keys.len() == n,
                    forall|m: int| j <= m < i ==> key_before(ints(keys[i as int]@), ints(#[trigger] keys[m]@)),
                decreases j,
            {
                j -= 1;
            }
            let ghost old_tasks = self.tasks@;
            let ghost old_keys = keys@;
            let ghost old_origin = origin;
            let task = self.tasks.remove(i);
            self.tasks.insert(j, task);
            let key = keys.remove(i);
            keys.insert(j, key);
            proof {
                origin = old_origin.remove(i as int).insert(j as int, i as int);
                lemma_moved(before, old_tasks, old_keys, old_origin, sort_by, i as int, j as int);
                assert(self.tasks@ == old_tasks.remove(i as int).insert(j as int, old_tasks[i as int]));
                assert(keys@ == old_keys.remove(i as int).insert(j as int, old_keys[i as int]));
            }
            i += 1;
        }
        proof {
            assert(is_stable_sort(old(self)@.tasks, self@.tasks, sort_by, origin));
        }
    }
}

/// Moving the task at place `i` down to place `j`, where it belongs among
/// the `i` sorted tasks before it, leaves `i + 1` tasks sorted.
proof fn lemma_moved(
    before: Seq<TaskView>,
    tasks: Seq<Task>,
    keys: Seq<Vec<i64>>,
    origin: Seq<int>,
    by: TaskSort,
    i: int,
    j: int,
)
    requires
        0 <= j <= i < before.len(),
        partly_sorted(before, tasks, keys, origin, by, i),
        forall|m: int| j <= m < i ==> key_before(ints(keys[i]@), ints(#[trigger] keys[m]@)),
        j > 0 ==> !key_before(ints(keys[i]@), ints(keys[j - 1]@)),
    ensures
        partly_sorted(
            before,
            tasks.remove(i).insert(j, tasks[i]),
            keys.remove(i).insert(j, keys[i]),
            origin.remove(i).insert(j, i),
            by,
            i + 1,
        ),
{
    let tasks2 = tasks.remove(i).insert(j, tasks[i]);
    let keys2 = keys.remove(i).insert(j, keys[i]);
    let origin2 = origin.remove(i).insert(j, i);
    let x = sort_key(before[i], by);
    assert(origin[i] == i);
    // Where each place of the new order came from in the old one.
    let from = |k: int| if k < j { k } else if k == j { i } else if k <= i { k - 1 } else { k };
    assert forall|k: int| 0 <= k < origin2.len() implies origin2[k] == origin[from(k)] && tasks2[k]
        == tasks[from(k)] && keys2[k] == keys[from(k)] by {}
    assert forall|k: int| 0 <= k < origin2.len() implies 0 <= #[trigger] origin2[k] < before.len()
        && tasks2[k]@ == before[origin2[k]] && ints(keys2[k]@) == sort_key(
        before[origin2[k]],
        by,
    ) by {
        assert(origin2[k] == origin[from(k)]);
    }
    assert forall|k: int| i + 1 <= k < origin2.len() implies #[trigger] origin2[k] == k by {
        assert(origin2[k] == origin[from(k)]);
    }
    assert forall|k: int| 0 <= k < i + 1 implies #[trigger] origin2[k] < i + 1 by {
        assert(origin2[k] == origin[from(k)]);
    }
    // No task among the first `j` has a key that the moved key comes before.
    assert forall|m: int| 0 <= m < j implies !key_before(x, sort_key(before[origin[m]], by)) by {
        let last = sort_key(before[origin[j - 1]], by);
        let here = sort_key(before[origin[m]], by);
        assert(ints(keys[i]@) == x);
        assert(ints(keys[j - 1]@) == last);
        if m < j - 1 {
            assert(belongs_before(before, by, origin[m], origin[j - 1]));
            if key_before(here, last) {
                lemma_key_before_asymmetric(here, last);
            }
            lemma_key_not_before_transitive(x, last, here);
        }
    }
    assert forall|a: int, b: int| 0 <= a < b < i + 1 implies belongs_before(
        before,
        by,
        #[trigger] origin2[a],
        #[trigger] origin2[b],
    ) by {
        assert(origin2[a] == origin[from(a)]);
        assert(origin2[b] == origin[from(b)]);
        if b == j {
            assert(origin[a] < i);
            assert(!key_before(x, sort_key(before[origin[a]], by)));
        } else if a == j {
            assert(ints(keys[b - 1]@) == sort_key(before[origin[b - 1]], by));
            assert(ints(keys[i]@) == x);
            assert(key_before(ints(keys[i]@), ints(keys[b - 1]@)));
            assert(origin[b - 1] < i);
        } else {
            assert(belongs_before(before, by, origin[from(a)], origin[from(b)]));
        }
    }
}

} // verus!
