use crate::task::{copy_strings, names_of, Task, TimeMoment};
use std::collections::BTreeSet;
use vstd::prelude::*;
use vstd::string::StringExecFns;
use vstd::std_specs::btree::{axiom_spec_btree_keys_iter, increasing_seq, spec_btree_keys_iter};
use vstd::std_specs::cmp::OrdSpec;
use vstd::std_specs::iter::IteratorSpec;

verus! {

broadcast use {vstd::std_specs::btree::group_btree_axioms, vstd::laws_cmp::group_laws_cmp};

/// Why scheduling cannot go on.
#[derive(Debug, Clone, PartialEq, Eq)]
pub enum ScheduleError {
    /// A task to schedule has the name of a task that is already scheduled.
    TaskNameNotUnique(String),
    /// No unscheduled task can start: a dependency does not exist, or the
    /// dependencies form a cycle.
    NoProgress,
    /// An end time does not fit in a machine word.
    TimeOverflow,
}

/// Whether a task of `tasks` is named `name`.
pub open spec fn has_name(tasks: Seq<Task>, name: Seq<char>) -> bool {
    exists|j: int| 0 <= j < tasks.len() && #[trigger] tasks[j].name@ == name
}

/// The end time of the last task of `tasks` named `name`.
pub open spec fn named_end(tasks: Seq<Task>, name: Seq<char>) -> Option<nat>
    decreases tasks.len(),
{
    if tasks.len() == 0 {
        None
    } else if tasks.last().name@ == name {
        Some(tasks.last().end_time as nat)
    } else {
        named_end(tasks.drop_last(), name)
    }
}

/// The latest end time of the tasks of `done` that `deps` names (0 for no
/// dependency), or `None` if one of them is not in `done`.
pub open spec fn latest_end(deps: Seq<Seq<char>>, done: Seq<Task>) -> Option<nat>
    decreases deps.len(),
{
    if deps.len() == 0 {
        Some(0)
    } else {
        match latest_end(deps.drop_last(), done) {
            Some(m) => match named_end(done, deps.last()) {
                Some(e) => Some(
                    if e > m {
                        e
                    } else {
                        m
                    },
                ),
                None => None,
            },
            None => None,
        }
    }
}

/// Scanning the unscheduled tasks in order, the scan stops at `t`: its name is
/// taken, or all its dependencies are scheduled.
pub open spec fn stops_at(t: Task, done: Seq<Task>) -> bool {
    has_name(done, t.name@) || latest_end(names_of(t.dependencies@), done) is Some
}

/// Whether the scan over `todo` stops somewhere.
pub open spec fn scan_stops(todo: Seq<Task>, done: Seq<Task>) -> bool {
    exists|i: int| 0 <= i < todo.len() && #[trigger] stops_at(todo[i], done)
}

/// The first index at which the scan over `todo` stops.
pub open spec fn first_stop(todo: Seq<Task>, done: Seq<Task>) -> int {
    choose|i: int|
        0 <= i < todo.len() && stops_at(todo[i], done) && forall|j: int|
            0 <= j < i ==> !#[trigger] stops_at(todo[j], done)
}

/// `r` is `t` placed at `start`.
pub open spec fn is_placed(r: Task, t: Task, start: nat) -> bool {
    &&& r.name == t.name
    &&& r.duration == t.duration
    &&& r.start_time == start
    &&& r.end_time == start + t.duration
    &&& r.dependencies@ == t.dependencies@
}

/// The start time at which the scan places `t`.
pub open spec fn start_of(t: Task, done: Seq<Task>) -> nat {
    latest_end(names_of(t.dependencies@), done)->Some_0
}

/// Whether `sched` is `old` after `t`, taken from index `index` of the
/// unscheduled tasks, was placed at `start`.
pub open spec fn placed(old: Scheduler, sched: Scheduler, index: int, start: nat) -> bool {
    let t = old.unscheduled_tasks@[index];
    let end = start + t.duration;
    &&& sched.scheduled_tasks@.len() == old.scheduled_tasks@.len() + 1
    &&& sched.scheduled_tasks@.drop_last() == old.scheduled_tasks@
    &&& is_placed(sched.scheduled_tasks@.last(), t, start)
    &&& sched.unscheduled_tasks@ == old.unscheduled_tasks@.remove(index)
    &&& sched.scheduled_tasks_time_nodes@ == old.scheduled_tasks_time_nodes@.insert(end as usize)
    &&& if end > old.last_task.end_time {
        is_placed(sched.last_task, t, start)
    } else {
        sched.last_task == old.last_task
    }
    &&& sched.critical_path == old.critical_path
    &&& sched.max_parallelism == old.max_parallelism
}

/// How many tasks of `tasks` run during part of the interval from `a` to `b`.
pub open spec fn overlap_count(tasks: Seq<Task>, a: nat, b: nat) -> nat
    decreases tasks.len(),
{
    if tasks.len() == 0 {
        0
    } else {
        overlap_count(tasks.drop_last(), a, b) + if a < tasks.last().end_time
            && tasks.last().start_time < b {
            1nat
        } else {
            0nat
        }
    }
}

/// `a < b` are neighbours in `nodes`: no element lies strictly between.
pub open spec fn adjacent(nodes: Set<TimeMoment>, a: TimeMoment, b: TimeMoment) -> bool {
    &&& nodes.contains(a)
    &&& nodes.contains(b)
    &&& a < b
    &&& forall|m: TimeMoment| #[trigger] nodes.contains(m) ==> !(a < m && m < b)
}

/// One scan step goes from `a` to `b`: the first task the scan stops at can
/// start, and `b` is `a` with that task placed.
pub open spec fn step(a: Scheduler, b: Scheduler) -> bool {
    let i = first_stop(a.unscheduled_tasks@, a.scheduled_tasks@);
    let t = a.unscheduled_tasks@[i];
    let start = start_of(t, a.scheduled_tasks@);
    &&& scan_stops(a.unscheduled_tasks@, a.scheduled_tasks@)
    &&& 0 <= i < a.unscheduled_tasks@.len()
    &&& !has_name(a.scheduled_tasks@, t.name@)
    &&& start + t.duration <= usize::MAX
    &&& placed(a, b, i, start)
    &&& b.number_of_unscheduled_tasks == a.unscheduled_tasks@.len() - 1
}

/// Whether some scan step leaves `a`.
pub open spec fn can_step(a: Scheduler) -> bool {
    exists|b: Scheduler| #[trigger] step(a, b)
}

/// `b` follows from `a` by `n` scan steps.
#[verifier::opaque]
pub open spec fn steps_to(a: Scheduler, b: Scheduler, n: nat) -> bool
    decreases n,
{
    if n == 0 {
        a == b
    } else {
        exists|m: Scheduler| #[trigger] step(a, m) && steps_to(m, b, (n - 1) as nat)
    }
}

/// A chain of steps extends by one more at its end.
proof fn lemma_steps_extend(a: Scheduler, b: Scheduler, c: Scheduler, n: nat)
    requires
        steps_to(a, b, n),
        step(b, c),
    ensures
        steps_to(a, c, n + 1),
    decreases n,
{
    reveal(steps_to);
    if n == 0 {
        assert(steps_to(c, c, 0));
        assert(step(a, c) && steps_to(c, c, 0));
    } else {
        let m = choose|m: Scheduler| #[trigger] step(a, m) && steps_to(m, b, (n - 1) as nat);
        lemma_steps_extend(m, b, c, (n - 1) as nat);
        assert(step(a, m) && steps_to(m, c, n));
    }
}

/// `m` is what `calculate_parallelism` makes of `s`'s maximum parallelism.
pub open spec fn is_max_parallelism(s: Scheduler, m: nat) -> bool {
    &&& m >= s.max_parallelism
    &&& forall|a: TimeMoment, b: TimeMoment|
        adjacent(s.scheduled_tasks_time_nodes@, a, b) ==> m >= #[trigger] overlap_count(
            s.scheduled_tasks@,
            a as nat,
            b as nat,
        )
    &&& m == s.max_parallelism || exists|a: TimeMoment, b: TimeMoment|
        adjacent(s.scheduled_tasks_time_nodes@, a, b) && m == #[trigger] overlap_count(
            s.scheduled_tasks@,
            a as nat,
            b as nat,
        )
}

/// The critical path that `assemble_critical_path_tasks` gives for `s`, last
/// task first.
pub open spec fn critical_path_of(s: Scheduler) -> Seq<Seq<char>> {
    strs_of(s.critical_path@).push(s.last_task.name@) + critical_walk(
        s.scheduled_tasks@,
        names_of(s.last_task.dependencies@),
        s.last_task.start_time as nat,
        s.scheduled_tasks@.len(),
    )
}

/// The last task of `tasks` named `name` that ends at `at`.
pub open spec fn task_ending(tasks: Seq<Task>, name: Seq<char>, at: nat) -> Option<Task>
    decreases tasks.len(),
{
    if tasks.len() == 0 {
        None
    } else if tasks.last().name@ == name && tasks.last().end_time == at {
        Some(tasks.last())
    } else {
        task_ending(tasks.drop_last(), name, at)
    }
}

/// For the first of `deps` that names a task ending at `at`, that task.
pub open spec fn predecessor(tasks: Seq<Task>, deps: Seq<Seq<char>>, at: nat) -> Option<Task>
    decreases deps.len(),
{
    if deps.len() == 0 {
        None
    } else {
        match task_ending(tasks, deps[0], at) {
            Some(t) => Some(t),
            None => predecessor(tasks, deps.subrange(1, deps.len() as int), at),
        }
    }
}

/// The names met walking back from a task that starts at `at` and depends on
/// `deps`: each step goes to the predecessor that ends when the current task
/// starts, and the walk stops at a task that starts at 0, where there is no
/// predecessor, or after `fuel` steps.
pub open spec fn critical_walk(tasks: Seq<Task>, deps: Seq<Seq<char>>, at: nat, fuel: nat) -> Seq<
    Seq<char>,
>
    decreases fuel,
{
    if fuel == 0 || deps.len() == 0 {
        Seq::empty()
    } else {
        match predecessor(tasks, deps, at) {
            Some(t) => seq![t.name@] + if t.start_time == 0 {
                Seq::<Seq<char>>::empty()
            } else {
                critical_walk(tasks, names_of(t.dependencies@), t.start_time as nat, (fuel - 1) as nat)
            },
            None => Seq::empty(),
        }
    }
}

/// The values of a list of string slices.
pub open spec fn strs_of(v: Seq<&str>) -> Seq<Seq<char>> {
    v.map_values(|s: &str| s@)
}

/// `parts` joined with `->` between neighbours.
pub open spec fn arrow_joined(parts: Seq<Seq<char>>) -> Seq<char>
    decreases parts.len(),
{
    if parts.len() == 0 {
        Seq::empty()
    } else if parts.len() == 1 {
        parts[0]
    } else {
        arrow_joined(parts.drop_last()) + seq!['-', '>'] + parts.last()
    }
}

/// The decimal digit for `d < 10`.
pub open spec fn digit_char(d: nat) -> char {
    if d == 0 {
        '0'
    } else if d == 1 {
        '1'
    } else if d == 2 {
        '2'
    } else if d == 3 {
        '3'
    } else if d == 4 {
        '4'
    } else if d == 5 {
        '5'
    } else if d == 6 {
        '6'
    } else if d == 7 {
        '7'
    } else if d == 8 {
        '8'
    } else {
        '9'
    }
}

/// The decimal numeral of `n`.
pub open spec fn decimal_of(n: nat) -> Seq<char>
    decreases n,
{
    if n < 10 {
        seq![digit_char(n)]
    } else {
        decimal_of(n / 10) + seq![digit_char(n % 10)]
    }
}

/// The report: critical path, minimum total duration and parallelism, one per
/// line.
pub open spec fn report_text(path: Seq<char>, minimum: nat, parallelism: nat) -> Seq<char> {
    "Critical: "@ + path + "\nMinimum: "@ + decimal_of(minimum) + "\nParallelism: "@ + decimal_of(
        parallelism,
    )
}

/// Appends the decimal numeral of `n` to `out`.
fn push_decimal(out: &mut String, n: usize)
    ensures
        final(out)@ == old(out)@ + decimal_of(n as nat),
    decreases n,
{
    if n >= 10 {
        push_decimal(out, n / 10);
    }
    let d = n % 10;
    let digit: &str = if d == 0 {
        "0"
    } else if d == 1 {
        "1"
    } else if d == 2 {
        "2"
    } else if d == 3 {
        "3"
    } else if d == 4 {
        "4"
    } else if d == 5 {
        "5"
    } else if d == 6 {
        "6"
    } else if d == 7 {
        "7"
    } else if d == 8 {
        "8"
    } else {
        "9"
    };
    proof {
        reveal_strlit("0");
        reveal_strlit("1");
        reveal_strlit("2");
        reveal_strlit("3");
        reveal_strlit("4");
        reveal_strlit("5");
        reveal_strlit("6");
        reveal_strlit("7");
        reveal_strlit("8");
        reveal_strlit("9");
        assert(digit@ =~= seq![digit_char(d as nat)]);
    }
    out.append(digit);
    proof {
        assert(final(out)@ =~= old(out)@ + decimal_of(n as nat));
    }
}

/// The index of the last task of `tasks` named `name` that ends at `at`.
fn find_ending(tasks: &Vec<Task>, name: &String, at: TimeMoment) -> (r: Option<usize>)
    ensures
        match r {
            Some(k) => k < tasks@.len() && task_ending(tasks@, name@, at as nat) == Some(tasks@[k as int]),
            None => task_ending(tasks@, name@, at as nat) is None,
        },
{
    let mut j = tasks.len();
    proof {
        assert(tasks@.take(j as int) =~= tasks@);
    }
    while j > 0
        invariant
            j <= tasks@.len(),
            task_ending(tasks@, name@, at as nat) == task_ending(tasks@.take(j as int), name@, at as nat),
        decreases j,
    {
        proof {
            assert(tasks@.take(j as int).drop_last() =~= tasks@.take(j - 1));
        }
        if same_name(tasks[j - 1].name, name) && tasks[j - 1].end_time == at {
            return Some(j - 1);
        }
        j = j - 1;
    }
    proof {
        assert(tasks@.take(0) =~= Seq::<Task>::empty());
    }
    None
}

/// The index of the predecessor, among `tasks`, that `deps` gives at `at`.
fn find_predecessor(tasks: &Vec<Task>, deps: &Vec<String>, at: TimeMoment) -> (r: Option<usize>)
    ensures
        match r {
            Some(k) => k < tasks@.len() && predecessor(tasks@, names_of(deps@), at as nat) == Some(
                tasks@[k as int],
            ),
            None => predecessor(tasks@, names_of(deps@), at as nat) is None,
        },
{
    let ghost names = names_of(deps@);
    proof {
        assert(names.subrange(0, names.len() as int) =~= names);
    }
    for i in 0..deps.len()
        invariant
            names == names_of(deps@),
            names.len() == deps@.len(),
            predecessor(tasks@, names, at as nat) == predecessor(
                tasks@,
                names.subrange(i as int, names.len() as int),
                at as nat,
            ),
    {
        proof {
            let rest = names.subrange(i as int, names.len() as int);
            assert(rest[0] == deps@[i as int]@);
            assert(rest.subrange(1, rest.len() as int) =~= names.subrange(i + 1, names.len() as int));
        }
        match find_ending(tasks, &deps[i], at) {
            Some(k) => {
                return Some(k);
            },
            None => {},
        }
    }
    None
}

/// The elements of `set` in increasing order.
fn sorted_nodes(set: &BTreeSet<TimeMoment>) -> (r: Vec<TimeMoment>)
    ensures
        forall|x: TimeMoment| set@.contains(x) <==> r@.contains(x),
        forall|i: int, j: int| 0 <= i < j < r@.len() ==> r@[i] < r@[j],
{
    let mut r: Vec<TimeMoment> = Vec::new();
    let ghost all = spec_btree_keys_iter(set).remaining().unref();
    proof {
        axiom_spec_btree_keys_iter(set);
        assert(increasing_seq(spec_btree_keys_iter(set).remaining()));
    }
    for x in it: set.iter()
        invariant
            it.seq().unref() == all,
            r@ == all.take(it.index()),
    {
        r.push(*x);
        proof {
            assert(all.take(it.index() + 1) =~= all.take(it.index()).push(*x));
        }
    }
    proof {
        assert(r@ =~= all);
        assert(all.to_set() == set@);
        assert forall|x: TimeMoment| set@.contains(x) <==> r@.contains(x) by {
            if r@.contains(x) {
                assert(all.to_set().contains(x));
            }
        }
        let keys = spec_btree_keys_iter(set).remaining();
        broadcast use vstd::laws_cmp::lemma_ref_obeys_cmp_spec;

        assert(vstd::laws_cmp::obeys_cmp::<&TimeMoment>());
        vstd::std_specs::btree::axiom_increasing_seq_meaning(keys);

        assert forall|i: int, j: int| 0 <= i < j < r@.len() implies r@[i] < r@[j] by {
            assert(all.len() == keys.len());
            assert(0 <= i < j < keys.len());
            assert(<&TimeMoment as OrdSpec>::cmp_spec(&keys[i], &keys[j]) is Less);
            assert(r@[i] == *keys[i] && r@[j] == *keys[j]);
        }
    }
    r
}

/// The same string slices in a new list.
fn copy_strs<'b>(v: &Vec<&'b str>) -> (r: Vec<&'b str>)
    ensures
        r@ == v@,
{
    let mut r: Vec<&'b str> = Vec::new();
    for i in 0..v.len()
        invariant
            r@ == v@.take(i as int),
    {
        r.push(v[i]);
        proof {
            assert(v@.take(i + 1) =~= v@.take(i as int).push(v@[i as int]));
        }
    }
    proof {
        assert(v@.take(v.len() as int) =~= v@);
    }
    r
}

/// Whether `a` and `b` have the same characters.
fn same_name(a: &str, b: &String) -> (r: bool)
    ensures
        r == (a@ == b@),
{
    let owned = a.to_owned();
    owned == *b
}

/// The end time of the last task of `tasks` named `name`.
fn find_end(tasks: &Vec<Task>, name: &String) -> (r: Option<usize>)
    ensures
        match r {
            Some(e) => named_end(tasks@, name@) == Some(e as nat),
            None => named_end(tasks@, name@) is None,
        },
{
    let mut j = tasks.len();
    proof {
        assert(tasks@.take(j as int) =~= tasks@);
    }
    while j > 0
        invariant
            j <= tasks@.len(),
            named_end(tasks@, name@) == named_end(tasks@.take(j as int), name@),
        decreases j,
    {
        proof {
            assert(tasks@.take(j as int).drop_last() =~= tasks@.take(j - 1));
        }
        if same_name(tasks[j - 1].name, name) {
            return Some(tasks[j - 1].end_time);
        }
        j = j - 1;
    }
    proof {
        assert(tasks@.take(0) =~= Seq::<Task>::empty());
    }
    None
}

/// The state of a scheduling run.
#[derive(Debug, Clone)]
pub struct Scheduler<'a> {
    pub number_of_unscheduled_tasks: usize,
    pub unscheduled_tasks: Vec<Task<'a>>,
    pub scheduled_tasks: Vec<Task<'a>>,
    pub critical_path: Vec<&'a str>,
    pub last_task: Task<'a>,
    pub scheduled_tasks_time_nodes: BTreeSet<TimeMoment>,
    pub max_parallelism: usize,
}

impl<'a> Scheduler<'a> {
    /// The time at which `unscheduled_task` can start: the latest end time of
    /// its dependencies, once all are scheduled; `None` for a task without
    /// dependencies.
    pub fn start_time_to_be_scheduled_at(&self, unscheduled_task: &Task) -> (r: Option<
        TimeMoment,
    >)
        ensures
            unscheduled_task.dependencies@.len() == 0 ==> r is None,
            unscheduled_task.dependencies@.len() > 0 ==> match r {
                Some(t) => latest_end(names_of(unscheduled_task.dependencies@), self.scheduled_tasks@) == Some(
                    t as nat,
                ),
                None => latest_end(names_of(unscheduled_task.dependencies@), self.scheduled_tasks@) is None,
            },
    {
        let deps = &unscheduled_task.dependencies;
        let ghost names = names_of(deps@);
        if deps.len() == 0 {
            return None;
        }
        let mut latest: TimeMoment = 0;
        for i in 0..deps.len()
            invariant
                names == names_of(deps@),
                deps@ == unscheduled_task.dependencies@,
                names.len() == deps@.len(),
                latest_end(names.take(i as int), self.scheduled_tasks@) == Some(latest as nat),
        {
            proof {
                assert(names.take(i + 1).drop_last() =~= names.take(i as int));
                assert(names.take(i + 1).last() == deps@[i as int]@);
            }
            match find_end(&self.scheduled_tasks, &deps[i]) {
                Some(e) => {
                    if e > latest {
                        latest = e;
                    }
                },
                None => {
                    proof {
                        let k = i + 1;
                        assert(latest_end(names.take(k), self.scheduled_tasks@) is None);
                        lemma_latest_end_none_extends(names, k, self.scheduled_tasks@);
                        assert(names.take(names.len() as int) =~= names);
                        assert(latest_end(names, self.scheduled_tasks@) is None);
                    }
                    return None;
                },
            }
        }
        proof {
            assert(names.take(names.len() as int) =~= names);
        }
        Some(latest)
    }

    /// Moves the unscheduled task at `index` to the scheduled tasks, starting
    /// at `start_time` (0 for `None`), and records its end time.
    pub fn set_start_and_end_times(&mut self, index: usize, start_time: &Option<TimeMoment>)
        requires
            index < old(self).unscheduled_tasks@.len(),
            match start_time {
                Some(t) => *t as nat,
                None => 0nat,
            } + old(self).unscheduled_tasks@[index as int].duration <= usize::MAX,
        ensures
            placed(
                *old(self),
                *final(self),
                index as int,
                match start_time {
                    Some(t) => *t as nat,
                    None => 0nat,
                },
            ),
            final(self).number_of_unscheduled_tasks == old(self).number_of_unscheduled_tasks,
    {
        let mut scheduled_task = self.unscheduled_tasks.remove(index);
        scheduled_task.start_time = match start_time {
            Some(t) => *t,
            None => 0,
        };
        scheduled_task.end_time = scheduled_task.start_time + scheduled_task.duration;
        self.scheduled_tasks_time_nodes.insert(scheduled_task.end_time);
        self.set_last_task(scheduled_task.copied());
        self.scheduled_tasks.push(scheduled_task);
        proof {
            assert(self.scheduled_tasks@.drop_last() =~= old(self).scheduled_tasks@);
        }
    }

    /// Schedules the first unscheduled task that can start: one without
    /// dependencies starts at 0, one whose dependencies are all scheduled
    /// starts when the latest of them ends. Fails, changing nothing, where
    /// the scan meets a task whose name is already scheduled, where no task
    /// can start, or where the end time would overflow.
    pub fn process_unscheduled_tasks(&mut self) -> (r: Result<(), ScheduleError>)
        ensures
            !scan_stops(old(self).unscheduled_tasks@, old(self).scheduled_tasks@) ==> (r matches Err(
                ScheduleError::NoProgress,
            ) && *final(self) == *old(self)),
            scan_stops(old(self).unscheduled_tasks@, old(self).scheduled_tasks@) ==> {
                let i = first_stop(old(self).unscheduled_tasks@, old(self).scheduled_tasks@);
                let t = old(self).unscheduled_tasks@[i];
                let start = start_of(t, old(self).scheduled_tasks@);
                if has_name(old(self).scheduled_tasks@, t.name@) {
                    r matches Err(ScheduleError::TaskNameNotUnique(n)) && n@ == t.name@ && *final(self)
                        == *old(self)
                } else if start + t.duration > usize::MAX {
                    r matches Err(ScheduleError::TimeOverflow) && *final(self) == *old(self)
                } else {
                    &&& r is Ok
                    &&& placed(*old(self), *final(self), i, start)
                    &&& final(self).number_of_unscheduled_tasks == old(self).unscheduled_tasks@.len()
                        - 1
                }
            },
            r is Ok ==> step(*old(self), *final(self)),
            r is Err ==> !can_step(*old(self)),
    {
        let ghost todo = self.unscheduled_tasks@;
        let ghost done = self.scheduled_tasks@;
        let mut i: usize = 0;
        while i < self.unscheduled_tasks.len()
            invariant
                *self == *old(self),
                todo == self.unscheduled_tasks@,
                done == self.scheduled_tasks@,
                i <= todo.len(),
                forall|j: int| 0 <= j < i ==> !#[trigger] stops_at(todo[j], done),
            decreases todo.len() - i,
        {
            let task = &self.unscheduled_tasks[i];
            let clash = self.taskname_is_not_unique(task);
            let start: Option<TimeMoment> = if clash {
                None
            } else if task.dependencies.len() == 0 {
                proof {
                    assert(names_of(task.dependencies@).len() == 0);
                }
                Some(0)
            } else {
                self.start_time_to_be_scheduled_at(task)
            };
            if clash || start.is_some() {
                proof {
                    assert(stops_at(todo[i as int], done));
                    let f = first_stop(todo, done);
                    assert(scan_stops(todo, done));
                    assert(0 <= f < todo.len() && stops_at(todo[f], done));
                    assert(f == i) by {
                        if f < i {
                            assert(!stops_at(todo[f], done));
                        } else if f > i {
                            assert(!stops_at(todo[i as int], done));
                        }
                    }
                }
                if clash {
                    proof {
                        assert(!can_step(*old(self))) by {
                            if can_step(*old(self)) {
                                let b = choose|b: Scheduler| #[trigger] step(*old(self), b);
                                assert(step(*old(self), b));
                            }
                        }
                    }
                    return Err(ScheduleError::TaskNameNotUnique(task.name.to_owned()));
                }
                let st = match start {
                    Some(t) => t,
                    None => 0,
                };
                proof {
                    assert(start_of(todo[i as int], done) == st as nat);
                }
                if task.duration > usize::MAX - st {
                    proof {
                        assert(!can_step(*old(self))) by {
                            if can_step(*old(self)) {
                                let b = choose|b: Scheduler| #[trigger] step(*old(self), b);
                                assert(step(*old(self), b));
                            }
                        }
                    }
                    return Err(ScheduleError::TimeOverflow);
                }
                self.set_start_and_end_times(i, &Some(st));
                self.set_number_of_unscheduled_tasks();
                return Ok(());
            }
            i = i + 1;
        }
        proof {
            assert(!scan_stops(todo, done));
            assert(!can_step(*old(self))) by {
                if can_step(*old(self)) {
                    let b = choose|b: Scheduler| #[trigger] step(*old(self), b);
                    assert(step(*old(self), b));
                }
            }
        }
        Err(ScheduleError::NoProgress)
    }

    /// Whether the interval from `a_start` to `a_end` and the one from
    /// `b_start` to `b_end` share a moment.
    pub fn do_overlap(
        &self,
        a_start: TimeMoment,
        a_end: TimeMoment,
        b_start: TimeMoment,
        b_end: TimeMoment,
    ) -> (r: bool)
        ensures
            r == (a_start < b_end && b_start < a_end),
    {
        a_start < b_end && b_start < a_end
    }

    /// Raises `max_parallelism` to the largest number of scheduled tasks that
    /// run between two neighbouring time nodes.
    pub fn calculate_parallelism(&mut self)
        ensures
            final(self).max_parallelism >= old(self).max_parallelism,
            forall|a: TimeMoment, b: TimeMoment|
                adjacent(old(self).scheduled_tasks_time_nodes@, a, b) ==> final(self).max_parallelism
                    >= #[trigger] overlap_count(old(self).scheduled_tasks@, a as nat, b as nat),
            final(self).max_parallelism == old(self).max_parallelism || exists|
                a: TimeMoment,
                b: TimeMoment,
            |
                adjacent(old(self).scheduled_tasks_time_nodes@, a, b) && final(self).max_parallelism
                    == #[trigger] overlap_count(old(self).scheduled_tasks@, a as nat, b as nat),
            final(self).number_of_unscheduled_tasks == old(self).number_of_unscheduled_tasks,
            final(self).unscheduled_tasks == old(self).unscheduled_tasks,
            final(self).scheduled_tasks == old(self).scheduled_tasks,
            final(self).critical_path == old(self).critical_path,
            final(self).last_task == old(self).last_task,
            final(self).scheduled_tasks_time_nodes == old(self).scheduled_tasks_time_nodes,
    {
        let nodes = sorted_nodes(&self.scheduled_tasks_time_nodes);
        let ghost set = self.scheduled_tasks_time_nodes@;
        let ghost done = self.scheduled_tasks@;
        let n = nodes.len();
        let windows: usize = if n >= 2 {
            n - 1
        } else {
            0
        };
        for w in 0..windows
            invariant
                windows == 0 || windows + 1 == nodes@.len(),
                set == old(self).scheduled_tasks_time_nodes@,
                done == old(self).scheduled_tasks@,
                self.number_of_unscheduled_tasks == old(self).number_of_unscheduled_tasks,
                self.unscheduled_tasks == old(self).unscheduled_tasks,
                self.scheduled_tasks == old(self).scheduled_tasks,
                self.critical_path == old(self).critical_path,
                self.last_task == old(self).last_task,
                self.scheduled_tasks_time_nodes == old(self).scheduled_tasks_time_nodes,
                self.max_parallelism >= old(self).max_parallelism,
                forall|k: int|
                    0 <= k < w ==> self.max_parallelism >= #[trigger] overlap_count(
                        done,
                        nodes@[k] as nat,
                        nodes@[k + 1] as nat,
                    ),
                self.max_parallelism == old(self).max_parallelism || exists|k: int|
                    0 <= k < w && self.max_parallelism == #[trigger] overlap_count(
                        done,
                        nodes@[k] as nat,
                        nodes@[k + 1] as nat,
                    ),
        {
            let a = nodes[w];
            let b = nodes[w + 1];
            let mut counter: usize = 0;
            for i in 0..self.scheduled_tasks.len()
                invariant
                    done == self.scheduled_tasks@,
                    counter <= i,
                    counter == overlap_count(done.take(i as int), a as nat, b as nat),
            {
                proof {
                    assert(done.take(i + 1).drop_last() =~= done.take(i as int));
                }
                let task = &self.scheduled_tasks[i];
                if self.do_overlap(a, b, task.start_time, task.end_time) {
                    counter = counter + 1;
                }
            }
            proof {
                assert(done.take(done.len() as int) =~= done);
            }
            if counter > self.max_parallelism {
                self.max_parallelism = counter;
            }
        }
        proof {
            assert forall|a: TimeMoment, b: TimeMoment|
                adjacent(set, a, b) implies self.max_parallelism >= #[trigger] overlap_count(
                done,
                a as nat,
                b as nat,
            ) by {
                let i = choose|i: int| 0 <= i < nodes@.len() && nodes@[i] == a;
                let k = choose|k: int| 0 <= k < nodes@.len() && nodes@[k] == b;
                assert(nodes@.contains(a) && nodes@.contains(b));
                assert(i < k);
                if k > i + 1 {
                    assert(set.contains(nodes@[i + 1]));
                }
                assert(k == i + 1);
            }
            if self.max_parallelism != old(self).max_parallelism {
                let k = choose|k: int|
                    0 <= k < windows && self.max_parallelism == #[trigger] overlap_count(
                        done,
                        nodes@[k] as nat,
                        nodes@[k + 1] as nat,
                    );
                let a = nodes@[k];
                let b = nodes@[k + 1];
                assert(nodes@.contains(a) && nodes@.contains(b));
                assert forall|m: TimeMoment| #[trigger] set.contains(m) implies !(a < m && m < b) by {
                    if set.contains(m) {
                        assert(nodes@.contains(m));
                    }
                }
                assert(adjacent(set, a, b));
            }
        }
    }

    /// One scan step, seen from the run that repeats it.
    fn advance(&mut self) -> (r: Result<(), ScheduleError>)
        ensures
            r is Ok ==> step(*old(self), *final(self)) && final(self).unscheduled_tasks@.len()
                == old(self).unscheduled_tasks@.len() - 1,
            r is Err ==> !can_step(*old(self)),
    {
        self.process_unscheduled_tasks()
    }

    /// Schedules every task, then reports the critical path, the minimum
    /// total duration and the maximum parallelism. Fails as the first scan
    /// step that cannot schedule a task does.
    pub fn run(self) -> (r: Result<String, ScheduleError>)
        ensures
            r matches Ok(out) ==> exists|s: Scheduler, n: nat, m: nat|
                #![trigger steps_to(self, s, n), is_max_parallelism(s, m)]
                steps_to(self, s, n) && s.number_of_unscheduled_tasks == 0 && is_max_parallelism(s, m)
                    && out@ == report_text(
                    arrow_joined(critical_path_of(s).reverse()),
                    s.last_task.end_time as nat,
                    m,
                ),
            r is Err ==> exists|s: Scheduler, n: nat|
                #[trigger] steps_to(self, s, n) && s.number_of_unscheduled_tasks > 0 && !can_step(s),
    {
        let ghost initial = self;
        let mut sched = self;
        let ghost mut count: nat = 0;
        proof {
            reveal(steps_to);
            assert(steps_to(initial, sched, 0));
        }
        while sched.number_of_unscheduled_tasks > 0
            invariant
                initial == self,
                steps_to(initial, sched, count),
            decreases sched.unscheduled_tasks@.len(),
        {
            let ghost before = sched;
            match sched.advance() {
                Ok(()) => {
                    proof {
                        lemma_steps_extend(initial, before, sched, count);
                        count = count + 1;
                    }
                },
                Err(e) => {
                    proof {
                        assert(steps_to(self, before, count) && before.number_of_unscheduled_tasks
                            > 0 && !can_step(before));
                    }
                    return Err(e);
                },
            }
        }
        let ghost scheduled = sched;
        sched.calculate_parallelism();
        let ghost m = sched.max_parallelism as nat;
        sched.assemble_critical_path_tasks();
        let out = sched.print_output();
        proof {
            assert(is_max_parallelism(scheduled, m));
            assert(strs_of(sched.critical_path@) == critical_path_of(scheduled));
        }
        Ok(out)
    }

    /// Appends the critical path, from the last task backwards: the last
    /// task, then repeatedly the first dependency of the current task that
    /// names a scheduled task ending when the current one starts, until a task
    /// that starts at 0, a task without such a dependency, or as many steps
    /// as there are scheduled tasks.
    pub fn assemble_critical_path_tasks(&mut self)
        ensures
            strs_of(final(self).critical_path@) == strs_of(old(self).critical_path@).push(
                old(self).last_task.name@,
            ) + critical_walk(
                old(self).scheduled_tasks@,
                names_of(old(self).last_task.dependencies@),
                old(self).last_task.start_time as nat,
                old(self).scheduled_tasks@.len(),
            ),
            final(self).number_of_unscheduled_tasks == old(self).number_of_unscheduled_tasks,
            final(self).unscheduled_tasks == old(self).unscheduled_tasks,
            final(self).scheduled_tasks == old(self).scheduled_tasks,
            final(self).last_task == old(self).last_task,
            final(self).scheduled_tasks_time_nodes == old(self).scheduled_tasks_time_nodes,
            final(self).max_parallelism == old(self).max_parallelism,
    {
        let ghost done = self.scheduled_tasks@;
        let ghost total = critical_walk(
            done,
            names_of(self.last_task.dependencies@),
            self.last_task.start_time as nat,
            done.len(),
        );
        self.critical_path.push(self.last_task.name);
        let ghost base = strs_of(self.critical_path@);
        proof {
            assert(base =~= strs_of(old(self).critical_path@).push(old(self).last_task.name@));
        }
        let mut dependencies = copy_strings(&self.last_task.dependencies);
        let mut critical_path_task_start_time: TimeMoment = self.last_task.start_time;
        let mut fuel: usize = self.scheduled_tasks.len();
        let mut finished = false;
        while !finished && dependencies.len() > 0 && fuel > 0
            invariant
                done == self.scheduled_tasks@,
                self.number_of_unscheduled_tasks == old(self).number_of_unscheduled_tasks,
                self.unscheduled_tasks == old(self).unscheduled_tasks,
                self.scheduled_tasks == old(self).scheduled_tasks,
                self.last_task == old(self).last_task,
                self.scheduled_tasks_time_nodes == old(self).scheduled_tasks_time_nodes,
                self.max_parallelism == old(self).max_parallelism,
                finished ==> strs_of(self.critical_path@) == base + total,
                !finished ==> strs_of(self.critical_path@) + critical_walk(
                    done,
                    names_of(dependencies@),
                    critical_path_task_start_time as nat,
                    fuel as nat,
                ) == base + total,
            decreases fuel + if finished {
                0int
            } else {
                1int
            },
        {
            let ghost walk = critical_walk(
                done,
                names_of(dependencies@),
                critical_path_task_start_time as nat,
                fuel as nat,
            );
            let ghost before = strs_of(self.critical_path@);
            match find_predecessor(&self.scheduled_tasks, &dependencies, critical_path_task_start_time) {
                Some(k) => {
                    let task = &self.scheduled_tasks[k];
                    self.critical_path.push(task.name);
                    proof {
                        assert(strs_of(self.critical_path@) =~= before.push(task.name@));
                    }
                    critical_path_task_start_time = task.start_time;
                    dependencies = copy_strings(&task.dependencies);
                    if task.start_time == 0 {
                        finished = true;
                        proof {
                            assert(walk =~= seq![task.name@]);
                            assert(before.push(task.name@) =~= before + walk);
                        }
                    } else {
                        proof {
                            let next = critical_walk(
                                done,
                                names_of(dependencies@),
                                critical_path_task_start_time as nat,
                                (fuel - 1) as nat,
                            );
                            assert(walk == seq![task.name@] + next);
                            assert(before.push(task.name@) + next =~= before + walk);
                        }
                    }
                    fuel = fuel - 1;
                },
                None => {
                    finished = true;
                    proof {
                        assert(walk =~= Seq::<Seq<char>>::empty());
                        assert(before =~= before + walk);
                    }
                },
            }
        }
        proof {
            if !finished {
                let walk = critical_walk(
                    done,
                    names_of(dependencies@),
                    critical_path_task_start_time as nat,
                    fuel as nat,
                );
                assert(walk =~= Seq::<Seq<char>>::empty());
                assert(strs_of(self.critical_path@) =~= strs_of(self.critical_path@) + walk);
            }
        }
    }

    /// The report: critical path, minimum total duration (the end of the
    /// last task) and parallelism.
    pub fn print_output(&self) -> (r: String)
        ensures
            r@ == report_text(
                arrow_joined(strs_of(self.critical_path@).reverse()),
                self.last_task.end_time as nat,
                self.max_parallelism as nat,
            ),
    {
        let mut out = String::new();
        let critical: &str = "Critical: ";
        let minimum: &str = "\nMinimum: ";
        let parallelism: &str = "\nParallelism: ";
        proof {
            reveal_strlit("Critical: ");
            reveal_strlit("\nMinimum: ");
            reveal_strlit("\nParallelism: ");
        }
        out.append(critical);
        let path = self.print_critical_path(copy_strs(&self.critical_path));
        out.append(path.as_str());
        out.append(minimum);
        push_decimal(&mut out, self.last_task.end_time);
        out.append(parallelism);
        push_decimal(&mut out, self.max_parallelism);
        proof {
            assert(out@ =~= report_text(
                arrow_joined(strs_of(self.critical_path@).reverse()),
                self.last_task.end_time as nat,
                self.max_parallelism as nat,
            ));
        }
        out
    }

    /// The names of `input` from last to first, joined with `->`.
    pub fn print_critical_path(&self, input: Vec<&str>) -> (r: String)
        ensures
            r@ == arrow_joined(strs_of(input@).reverse()),
    {
        let ghost rev = strs_of(input@).reverse();
        let mut out = String::new();
        let arrow: &str = "->";
        proof {
            reveal_strlit("->");
            assert(rev.take(0) =~= Seq::<Seq<char>>::empty());
        }
        let n = input.len();
        for k in 0..n
            invariant
                n == input@.len(),
                rev == strs_of(input@).reverse(),
                rev.len() == n,
                arrow@ == seq!['-', '>'],
                out@ == arrow_joined(rev.take(k as int)),
        {
            proof {
                assert(rev.take(k + 1).drop_last() =~= rev.take(k as int));
                assert(rev.take(k + 1).last() == input@[n - 1 - k]@);
            }
            if k > 0 {
                out.append(arrow);
            }
            out.append(input[n - 1 - k]);
            proof {
                let step = rev.take(k + 1);
                assert(step.last() == input@[n - 1 - k]@);
                if k == 0 {
                    assert(step.len() == 1);
                    assert(step[0] == input@[n - 1 - k]@);
                    assert(out@ =~= arrow_joined(step));
                } else {
                    assert(arrow_joined(step) == arrow_joined(step.drop_last()) + seq!['-', '>']
                        + step.last());
                    assert(out@ =~= arrow_joined(step));
                }
            }
        }
        proof {
            assert(rev.take(n as int) =~= rev);
        }
        out
    }

    /// Whether a scheduled task already has the name of `candidate`.
    pub fn taskname_is_not_unique(&self, candidate: &Task) -> (r: bool)
        ensures
            r == has_name(self.scheduled_tasks@, candidate.name@),
    {
        let owned = candidate.name.to_owned();
        for j in 0..self.scheduled_tasks.len()
            invariant
                owned@ == candidate.name@,
                forall|k: int| 0 <= k < j ==> self.scheduled_tasks@[k].name@ != candidate.name@,
        {
            if same_name(self.scheduled_tasks[j].name, &owned) {
                return true;
            }
        }
        false
    }

    /// Keeps `task` as the last task if it ends later than the current one.
    pub fn set_last_task(&mut self, task: Task<'a>)
        ensures
            final(self).last_task == (if task.end_time > old(self).last_task.end_time {
                task
            } else {
                old(self).last_task
            }),
            final(self).number_of_unscheduled_tasks == old(self).number_of_unscheduled_tasks,
            final(self).unscheduled_tasks == old(self).unscheduled_tasks,
            final(self).scheduled_tasks == old(self).scheduled_tasks,
            final(self).critical_path == old(self).critical_path,
            final(self).scheduled_tasks_time_nodes == old(self).scheduled_tasks_time_nodes,
            final(self).max_parallelism == old(self).max_parallelism,
    {
        if task.end_time > self.last_task.end_time {
            self.last_task = task;
        }
    }

    /// Records how many tasks are still unscheduled.
    pub fn set_number_of_unscheduled_tasks(&mut self)
        ensures
            final(self).number_of_unscheduled_tasks == old(self).unscheduled_tasks@.len(),
            final(self).unscheduled_tasks == old(self).unscheduled_tasks,
            final(self).scheduled_tasks == old(self).scheduled_tasks,
            final(self).critical_path == old(self).critical_path,
            final(self).last_task == old(self).last_task,
            final(self).scheduled_tasks_time_nodes == old(self).scheduled_tasks_time_nodes,
            final(self).max_parallelism == old(self).max_parallelism,
    {
        self.number_of_unscheduled_tasks = self.unscheduled_tasks.len();
    }

    /// Records how many tasks are still unscheduled.
    pub fn initialize(&mut self)
        ensures
            final(self).number_of_unscheduled_tasks == old(self).unscheduled_tasks@.len(),
            final(self).unscheduled_tasks == old(self).unscheduled_tasks,
            final(self).scheduled_tasks == old(self).scheduled_tasks,
            final(self).critical_path == old(self).critical_path,
            final(self).last_task == old(self).last_task,
            final(self).scheduled_tasks_time_nodes == old(self).scheduled_tasks_time_nodes,
            final(self).max_parallelism == old(self).max_parallelism,
    {
        self.set_number_of_unscheduled_tasks();
    }
}

/// Once a prefix of the dependencies misses one, every longer prefix does.
proof fn lemma_latest_end_none_extends(names: Seq<Seq<char>>, k: int, done: Seq<Task>)
    requires
        0 <= k <= names.len(),
        latest_end(names.take(k), done) is None,
    ensures
        latest_end(names.take(names.len() as int), done) is None,
    decreases names.len() - k,
{
    if k < names.len() {
        assert(names.take(k + 1).drop_last() =~= names.take(k));
        lemma_latest_end_none_extends(names, k + 1, done);
    }
}

/// A scheduler for `unscheduled_tasks` with nothing scheduled yet.
pub fn build_scheduler(unscheduled_tasks: Vec<Task>) -> (r: Scheduler)
    ensures
        r.number_of_unscheduled_tasks == unscheduled_tasks@.len(),
        r.unscheduled_tasks@ == unscheduled_tasks@,
        r.scheduled_tasks@ == Seq::<Task>::empty(),
        r.critical_path@ == Seq::<&str>::empty(),
        r.last_task@.name == Seq::<char>::empty(),
        r.last_task.duration == 0,
        r.last_task.end_time == 0,
        r.last_task.start_time == 0,
        r.last_task.dependencies@ == Seq::<String>::empty(),
        r.scheduled_tasks_time_nodes@ == set![0usize],
        r.max_parallelism == 0,
{
    let mut nodes: BTreeSet<TimeMoment> = BTreeSet::new();
    nodes.insert(0);
    let mut scheduler = Scheduler {
        number_of_unscheduled_tasks: 0,
        unscheduled_tasks,
        scheduled_tasks: Vec::new(),
        critical_path: Vec::new(),
        last_task: Task::default(),
        scheduled_tasks_time_nodes: nodes,
        max_parallelism: 0,
    };
    proof {
        assert(scheduler.scheduled_tasks_time_nodes@ =~= set![0usize]);
    }
    scheduler.initialize();
    scheduler
}

} // verus!
