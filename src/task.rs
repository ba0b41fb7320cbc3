use vstd::prelude::*;

verus! {

/// A length of time.
pub type Duration = usize;

/// A point in time.
pub type TimeMoment = usize;

/// A named task with a duration, the names of the tasks it runs after, and,
/// once scheduled, its start and end times.
#[derive(Debug, Clone, PartialEq, Eq)]
pub struct Task<'a> {
    pub name: &'a str,
    pub duration: Duration,
    pub start_time: TimeMoment,
    pub end_time: TimeMoment,
    pub dependencies: Vec<String>,
}

/// The value of a [`Task`].
pub struct TaskSpec {
    pub name: Seq<char>,
    pub duration: nat,
    pub start_time: nat,
    pub end_time: nat,
    pub dependencies: Seq<Seq<char>>,
}

/// The values of a list of strings.
pub open spec fn names_of(v: Seq<String>) -> Seq<Seq<char>> {
    v.map_values(|s: String| s@)
}

impl<'a> View for Task<'a> {
    type V = TaskSpec;

    open spec fn view(&self) -> TaskSpec {
        TaskSpec {
            name: self.name@,
            duration: self.duration as nat,
            start_time: self.start_time as nat,
            end_time: self.end_time as nat,
            dependencies: names_of(self.dependencies@),
        }
    }
}

/// The same strings in a new list.
pub fn copy_strings(v: &Vec<String>) -> (r: Vec<String>)
    ensures
        r@ == v@,
{
    let mut r: Vec<String> = Vec::new();
    for i in 0..v.len()
        invariant
            r@ == v@.take(i as int),
    {
        r.push(v[i].clone());
        proof {
            assert(v@.take(i + 1) =~= v@.take(i as int).push(v@[i as int]));
        }
    }
    proof {
        assert(v@.take(v.len() as int) =~= v@);
    }
    r
}

impl<'a> Task<'a> {
    /// An unscheduled task: start and end times are zero.
    pub fn new(name: &'a str, duration: Duration, dependencies: Vec<String>) -> (r: Task<'a>)
        ensures
            r.name == name,
            r.duration == duration,
            r.start_time == 0,
            r.end_time == 0,
            r.dependencies@ == dependencies@,
    {
        Task { name, duration, start_time: 0, end_time: 0, dependencies }
    }

    /// A task equal to this one.
    pub fn copied(&self) -> (r: Task<'a>)
        ensures
            r.name == self.name,
            r.duration == self.duration,
            r.start_time == self.start_time,
            r.end_time == self.end_time,
            r.dependencies@ == self.dependencies@,
            r@ == self@,
    {
        Task {
            name: self.name,
            duration: self.duration,
            start_time: self.start_time,
            end_time: self.end_time,
            dependencies: copy_strings(&self.dependencies),
        }
    }
}

impl<'a> Default for Task<'a> {
    /// A task with an empty name, zero times and no dependencies.
    fn default() -> (r: Task<'a>)
        ensures
            r.name@ == Seq::<char>::empty(),
            r.duration == 0,
            r.start_time == 0,
            r.end_time == 0,
            r.dependencies@ == Seq::<String>::empty(),
    {
        let name: &'a str = "";
        proof {
            reveal_strlit("");
        }
        Task { name, duration: 0, start_time: 0, end_time: 0, dependencies: Vec::new() }
    }
}

} // verus!
