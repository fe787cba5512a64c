//! Tasks: how a due date reads relative to today, and the order in which
//! tasks are shown.
use vstd::prelude::*;
use crate::decimal::{push_decimal_nat, spec_decimal_nat};

verus! {

/// A calendar date: the number of its day, counted from 1 for January 1 of
/// the year 1 in the proleptic Gregorian calendar, and its month and day of
/// the month. The day number orders dates; month and day are what a date
/// is written with.
#[derive(Clone, Copy, Debug, PartialEq, Eq, Structural)]
pub struct Date {
    pub day_number: i32,
    pub month: u32,
    pub day: u32,
}

/// Something to do by a day.
#[derive(Debug)]
pub struct Task {
    pub due_date: Date,
    pub description: String,
}

/// How a due date reads on the day `today`: a date before today reads
/// "yesterday", today "today", the day after "tomorrow", and any later date
/// as month and day with a slash between them.
pub open spec fn spec_date_label(due: Date, today: Date) -> Seq<char> {
    if due.day_number < today.day_number {
        "yesterday"@
    } else if due.day_number == today.day_number {
        "today"@
    } else if due.day_number == today.day_number + 1 {
        "tomorrow"@
    } else {
        spec_decimal_nat(due.month as nat) + seq!['/'] + spec_decimal_nat(due.day as nat)
    }
}

pub fn date_label(due: Date, today: Date) -> (label: String)
    ensures
        label@ == spec_date_label(due, today),
{
    if due.day_number < today.day_number {
        String::from_str("yesterday")
    } else if due.day_number == today.day_number {
        String::from_str("today")
    } else if due.day_number as i64 == today.day_number as i64 + 1 {
        String::from_str("tomorrow")
    } else {
        let mut label = String::new();
        push_decimal_nat(&mut label, due.month as u64);
        label.append("/");
        push_decimal_nat(&mut label, due.day as u64);
        proof {
            reveal_strlit("/");
            assert("/"@ =~= seq!['/']);
            assert(label@ =~= spec_date_label(due, today));
        }
        label
    }
}

/// `order` with the task `i` put behind the last task that is due no later
/// than it.
pub open spec fn spec_insert(order: Seq<usize>, tasks: Seq<Task>, i: usize) -> Seq<usize>
    decreases order.len(),
{
    if order.len() == 0 || tasks[order.last() as int].due_date.day_number
        <= tasks[i as int].due_date.day_number {
        order.push(i)
    } else {
        spec_insert(order.drop_last(), tasks, i).push(order.last())
    }
}

/// The order in which the first `n` tasks are shown: by due date, tasks
/// with the same due date in the order of the list.
pub open spec fn spec_order(tasks: Seq<Task>, n: nat) -> Seq<usize>
    decreases n,
{
    if n == 0 {
        Seq::empty()
    } else {
        spec_insert(spec_order(tasks, (n - 1) as nat), tasks, (n - 1) as usize)
    }
}

/// Whether `a` is shown before `b`: it is due earlier, or on the same day
/// and stands earlier in the list.
pub open spec fn spec_shown_before(tasks: Seq<Task>, a: usize, b: usize) -> bool {
    let da = tasks[a as int].due_date.day_number;
    let db = tasks[b as int].due_date.day_number;
    da < db || (da == db && a < b)
}

/// Whether `order` lists tasks with index under `n` without repetition, in
/// the order in which they are shown.
pub open spec fn spec_ordered(order: Seq<usize>, tasks: Seq<Task>, n: nat) -> bool {
    &&& forall|k: int| 0 <= k < order.len() ==> (#[trigger] order[k]) < n
    &&& forall|j: int, k: int|
        0 <= j < k < order.len() ==> spec_shown_before(tasks, #[trigger] order[j], #[trigger] order[k])
}

proof fn lemma_insert(order: Seq<usize>, tasks: Seq<Task>, i: usize)
    requires
        spec_ordered(order, tasks, i as nat),
    ensures
        spec_ordered(spec_insert(order, tasks, i), tasks, (i + 1) as nat),
        spec_insert(order, tasks, i).len() == order.len() + 1,
        spec_insert(order, tasks, i).contains(i),
        forall|v: usize| order.contains(v) ==> spec_insert(order, tasks, i).contains(v),
        forall|v: usize|
            spec_insert(order, tasks, i).contains(v) ==> v == i || order.contains(v),
    decreases order.len(),
{
    let out = spec_insert(order, tasks, i);
    if order.len() == 0 || tasks[order.last() as int].due_date.day_number
        <= tasks[i as int].due_date.day_number {
        assert(out[order.len() as int] == i);
        assert forall|v: usize| order.contains(v) implies out.contains(v) by {
            let k = choose|k: int| 0 <= k < order.len() && order[k] == v;
            assert(out[k] == v);
        }
        assert forall|j: int, k: int| 0 <= j < k < out.len() implies spec_shown_before(
            tasks,
            #[trigger] out[j],
            #[trigger] out[k],
        ) by {
            if k == order.len() {
                assert(order[j] < i);
                if j < order.len() - 1 {
                    assert(spec_shown_before(tasks, order[j], order[order.len() - 1]));
                }
            }
        }
    } else {
        let front = order.drop_last();
        let last = order.last();
        assert forall|k: int| 0 <= k < front.len() implies front[k] == order[k] by {}
        assert(spec_ordered(front, tasks, i as nat));
        lemma_insert(front, tasks, i);
        let inner = spec_insert(front, tasks, i);
        assert(out == inner.push(last));
        assert(out[inner.len() as int] == last);
        assert(order[order.len() - 1] == last);
        assert forall|v: usize| order.contains(v) implies out.contains(v) by {
            let k = choose|k: int| 0 <= k < order.len() && order[k] == v;
            if k < front.len() {
                assert(front[k] == v);
                assert(front.contains(v));
                let m = choose|m: int| 0 <= m < inner.len() && inner[m] == v;
                assert(out[m] == v);
            }
        }
        assert(out.contains(i)) by {
            let m = choose|m: int| 0 <= m < inner.len() && inner[m] == i;
            assert(out[m] == i);
        }
        assert forall|v: usize| out.contains(v) implies v == i || order.contains(v) by {
            let k = choose|k: int| 0 <= k < out.len() && out[k] == v;
            if k < inner.len() {
                assert(inner[k] == v);
                assert(inner.contains(v));
                if v != i {
                    assert(front.contains(v));
                    let m = choose|m: int| 0 <= m < front.len() && front[m] == v;
                    assert(front[m] == order[m]);
                    assert(order[m] == v);
                }
            } else {
                assert(order[order.len() - 1] == v);
            }
        }
        assert forall|j: int, k: int| 0 <= j < k < out.len() implies spec_shown_before(
            tasks,
            #[trigger] out[j],
            #[trigger] out[k],
        ) by {
            if k == inner.len() {
                assert(inner[j] == out[j]);
                assert(inner.contains(out[j]));
                if out[j] != i {
                    assert(front.contains(out[j]));
                    let m = choose|m: int| 0 <= m < front.len() && front[m] == out[j];
                    assert(front[m] == order[m]);
                    assert(spec_shown_before(tasks, order[m], order[order.len() - 1]));
                }
            } else {
                assert(spec_shown_before(tasks, inner[j], inner[k]));
            }
        }
        assert forall|k: int| 0 <= k < out.len() implies (#[trigger] out[k]) < i + 1 by {
            if k < inner.len() {
                assert(inner[k] < i + 1);
            }
        }
    }
}

/// The order of showing lists every task once, the earlier due first and,
/// among tasks due on the same day, the earlier in the list first.
pub proof fn lemma_order(tasks: Seq<Task>, n: nat)
    requires
        n <= tasks.len(),
        n <= usize::MAX,
    ensures
        spec_ordered(spec_order(tasks, n), tasks, n),
        spec_order(tasks, n).len() == n,
        forall|v: usize| v < n ==> spec_order(tasks, n).contains(v),
    decreases n,
{
    if n > 0 {
        let before = spec_order(tasks, (n - 1) as nat);
        lemma_order(tasks, (n - 1) as nat);
        lemma_insert(before, tasks, (n - 1) as usize);
        assert forall|v: usize| v < n implies spec_order(tasks, n).contains(v) by {
            if v < n - 1 {
                assert(before.contains(v));
            }
        }
    }
}

proof fn lemma_insert_at(order: Seq<usize>, tasks: Seq<Task>, i: usize, at: int)
    requires
        0 <= at <= order.len(),
        at > 0 ==> tasks[order[at - 1] as int].due_date.day_number
            <= tasks[i as int].due_date.day_number,
        forall|k: int|
            at <= k < order.len() ==> tasks[(#[trigger] order[k]) as int].due_date.day_number
                > tasks[i as int].due_date.day_number,
    ensures
        spec_insert(order, tasks, i) == order.insert(at, i),
    decreases order.len() - at,
{
    if at == order.len() {
        assert(order.insert(at, i) =~= order.push(i));
    } else {
        let front = order.drop_last();
        assert(order[order.len() - 1] == order.last());
        assert forall|k: int| at <= k < front.len() implies tasks[(
        #[trigger] front[k]) as int].due_date.day_number > tasks[i as int].due_date.day_number by {
            assert(front[k] == order[k]);
        }
        if at > 0 {
            assert(front[at - 1] == order[at - 1]);
        }
        lemma_insert_at(front, tasks, i, at);
        assert(front.insert(at, i).push(order.last()) =~= order.insert(at, i));
    }
}

/// The indices of the tasks in the order in which they are shown.
pub fn sorted_order(tasks: &Vec<Task>) -> (order: Vec<usize>)
    ensures
        order@ == spec_order(tasks@, tasks@.len()),
        order@.len() == tasks@.len(),
        forall|k: int| 0 <= k < order@.len() ==> (#[trigger] order@[k]) < tasks@.len(),
{
    let n = tasks.len();
    let mut order: Vec<usize> = Vec::new();
    let mut i: usize = 0;
    while i < n
        invariant
            i <= n,
            n == tasks@.len(),
            order@ == spec_order(tasks@, i as nat),
            order@.len() == i,
            forall|k: int| 0 <= k < order@.len() ==> (#[trigger] order@[k]) < i,
        decreases n - i,
    {
        let due = tasks[i].due_date.day_number;
        let mut at: usize = order.len();
        while at > 0 && tasks[order[at - 1]].due_date.day_number > due
            invariant
                at <= order@.len(),
                i < n,
                n == tasks@.len(),
                due == tasks@[i as int].due_date.day_number,
                forall|k: int| 0 <= k < order@.len() ==> (#[trigger] order@[k]) < i,
                forall|k: int|
                    at <= k < order@.len() ==> tasks@[(
                    #[trigger] order@[k]) as int].due_date.day_number > due,
            decreases at,
        {
            at -= 1;
        }
        proof {
            lemma_insert_at(order@, tasks@, i, at as int);
            lemma_order(tasks@, i as nat);
            lemma_insert(order@, tasks@, i);
        }
        order.insert(at, i);
        i += 1;
    }
    order
}

} // verus!
