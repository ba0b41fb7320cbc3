use crate::bignat::decimal_value;
use crate::task::{names_of, Task};
use vstd::prelude::*;
use vstd::string::{is_ascii, StrSliceExecFns};

verus! {

/// A class of characters of the job grammar.
#[derive(Clone, Copy, PartialEq, Eq, Structural)]
pub enum CharClass {
    /// Space or tab.
    Blank,
    /// Space, tab, carriage return or line feed.
    White,
    /// ASCII letter or digit.
    Alnum,
    /// ASCII digit.
    Digit,
}

/// Whether `c` belongs to class `k`.
pub open spec fn in_class(c: char, k: CharClass) -> bool {
    match k {
        CharClass::Blank => c == ' ' || c == '\t',
        CharClass::White => c == ' ' || c == '\t' || c == '\r' || c == '\n',
        CharClass::Alnum => ('a' <= c && c <= 'z') || ('A' <= c && c <= 'Z') || ('0' <= c && c <= '9'),
        CharClass::Digit => '0' <= c && c <= '9',
    }
}

/// The first position at or after `i` whose character is not of class `k`
/// (the length where there is none).
pub open spec fn skip(s: Seq<char>, i: int, k: CharClass) -> int
    decreases s.len() - i,
{
    if 0 <= i < s.len() && in_class(s[i], k) {
        skip(s, i + 1, k)
    } else {
        i
    }
}

/// The position after a line ending (`\n` or `\r\n`) at `i`.
pub open spec fn line_end(s: Seq<char>, i: int) -> Option<int> {
    if 0 <= i < s.len() && s[i] == '\n' {
        Some(i + 1)
    } else if 0 <= i && i + 1 < s.len() && s[i] == '\r' && s[i + 1] == '\n' {
        Some(i + 2)
    } else {
        None
    }
}

/// The names of a dependency list from `p` (just after `[` and blanks) on,
/// and the position after its `]`: names separated by commas with white space
/// around them, the `]` after blanks only.
pub open spec fn deps_from(s: Seq<char>, p: int) -> Option<(Seq<Seq<char>>, int)>
    decreases s.len() - p,
{
    let e = skip(s, p, CharClass::Alnum);
    if !(0 <= p < e && e <= s.len()) {
        None
    } else {
        let item = s.subrange(p, e);
        let t = skip(s, e, CharClass::Blank);
        let a = skip(s, e, CharClass::White);
        let b = skip(s, a + 1, CharClass::White);
        if t < s.len() && s[t] == ']' {
            Some((seq![item], t + 1))
        } else if 0 <= a < s.len() && s[a] == ',' && p < b <= s.len() {
            match deps_from(s, b) {
                Some((rest, q)) => Some((seq![item] + rest, q)),
                None => None,
            }
        } else {
            None
        }
    }
}

/// Whether `after` is written at `i`.
pub open spec fn after_at(s: Seq<char>, i: int) -> bool {
    0 <= i && i + 5 <= s.len() && s.subrange(i, i + 5) == seq!['a', 'f', 't', 'e', 'r']
}

/// The position of a task name after blanks and a line ending at `q`.
pub open spec fn line_break_at(s: Seq<char>, q: int) -> Option<int> {
    let sp = skip(s, q, CharClass::Blank);
    match line_end(s, sp) {
        Some(l) => if l < s.len() && in_class(s[l], CharClass::Alnum) {
            Some(l)
        } else {
            None
        },
        None => None,
    }
}

/// A dependency clause at `q`: white space, `after`, white space, `[`,
/// blanks and a dependency list. Gives the names and the position after `]`.
pub open spec fn deps_clause(s: Seq<char>, q: int) -> Option<(Seq<Seq<char>>, int)> {
    let m1 = skip(s, q, CharClass::White);
    let m2 = skip(s, m1 + 5, CharClass::White);
    if m1 > q && after_at(s, m1) && m2 > m1 + 5 && m2 < s.len() && s[m2] == '[' {
        deps_from(s, skip(s, m2 + 1, CharClass::Blank))
    } else {
        None
    }
}

/// What follows a task's `)` at `q`: the end of the input after white space;
/// or a line break before the next task's name; or a dependency clause.
/// Gives the dependencies and the position after them.
pub open spec fn deps_after(s: Seq<char>, q: int) -> Option<(Seq<Seq<char>>, int)> {
    if skip(s, q, CharClass::White) == s.len() {
        Some((Seq::empty(), s.len() as int))
    } else if line_break_at(s, q) is Some {
        Some((Seq::empty(), line_break_at(s, q)->Some_0))
    } else {
        deps_clause(s, q)
    }
}

/// A task as written: its name, duration and dependencies.
pub struct TaskSyntax {
    pub name: Seq<char>,
    pub duration: nat,
    pub dependencies: Seq<Seq<char>>,
}

/// The task written at `p`, `name(duration)` and what follows, and the
/// position after it.
pub open spec fn task_at(s: Seq<char>, p: int) -> Option<(TaskSyntax, int)> {
    let e = skip(s, p, CharClass::Alnum);
    let d0 = e + 1;
    let d1 = skip(s, d0, CharClass::Digit);
    if !(0 <= p < e && e < s.len() && s[e] == '(' && d0 < d1 && d1 < s.len() && s[d1] == ')'
        && decimal_value(s.subrange(d0, d1)) <= usize::MAX) {
        None
    } else {
        match deps_after(s, d1 + 1) {
            Some((deps, r)) => Some(
                (
                    TaskSyntax {
                        name: s.subrange(p, e),
                        duration: decimal_value(s.subrange(d0, d1)),
                        dependencies: deps,
                    },
                    r,
                ),
            ),
            None => None,
        }
    }
}

/// The tasks written from `p` to the end: one or more, separated by white
/// space, with white space at the end.
pub open spec fn tasks_from(s: Seq<char>, p: int) -> Option<Seq<TaskSyntax>>
    decreases s.len() - p,
{
    match task_at(s, p) {
        Some((t, q)) => {
            let next = skip(s, q, CharClass::White);
            if next == s.len() {
                Some(seq![t])
            } else if p < next <= s.len() {
                match tasks_from(s, next) {
                    Some(rest) => Some(seq![t] + rest),
                    None => None,
                }
            } else {
                None
            }
        },
        None => None,
    }
}

/// Why a job does not parse.
#[derive(Debug, Clone, Copy, PartialEq, Eq)]
pub struct ParseError;

/// `t` is the task that `syntax` writes, not yet scheduled.
pub open spec fn task_matches(t: Task, syntax: TaskSyntax) -> bool {
    &&& t.name@ == syntax.name
    &&& t.duration as nat == syntax.duration
    &&& t.start_time == 0
    &&& t.end_time == 0
    &&& names_of(t.dependencies@) == syntax.dependencies
}

/// Positions `i..j` hold characters of class `k`.
pub open spec fn all_in_class(s: Seq<char>, i: int, j: int, k: CharClass) -> bool {
    forall|t: int| i <= t < j ==> in_class(#[trigger] s[t], k)
}

/// The character at `i`, as its code.
fn code_at(s: &str, i: usize) -> (c: u8)
    requires
        is_ascii(s),
        i < s@.len(),
    ensures
        c as int == s@[i as int] as int,
{
    s.get_ascii(i)
}

/// Whether the character at `i` is of class `k`.
fn at_class(s: &str, i: usize, k: CharClass) -> (r: bool)
    requires
        is_ascii(s),
        i < s@.len(),
    ensures
        r == in_class(s@[i as int], k),
{
    let c = code_at(s, i);
    match k {
        CharClass::Blank => c == 32 || c == 9,
        CharClass::White => c == 32 || c == 9 || c == 13 || c == 10,
        CharClass::Alnum => (97 <= c && c <= 122) || (65 <= c && c <= 90) || (48 <= c && c <= 57),
        CharClass::Digit => 48 <= c && c <= 57,
    }
}

/// Whether the character at `i` is `ch`.
fn at_char(s: &str, i: usize, ch: u8) -> (r: bool)
    requires
        is_ascii(s),
    ensures
        r == (i < s@.len() && s@[i as int] as int == ch as int),
        s@.len() <= usize::MAX,
{
    i < s.unicode_len() && code_at(s, i) == ch
}

/// The first position at or after `i` whose character is not of class `k`.
fn skip_class(s: &str, i: usize, k: CharClass) -> (r: usize)
    requires
        is_ascii(s),
        i <= s@.len(),
    ensures
        r as int == skip(s@, i as int, k),
        i <= r <= s@.len(),
        s@.len() <= usize::MAX,
        all_in_class(s@, i as int, r as int, k),
{
    let n = s.unicode_len();
    let mut j = i;
    while j < n && at_class(s, j, k)
        invariant
            is_ascii(s),
            n == s@.len(),
            i <= j <= n,
            skip(s@, i as int, k) == skip(s@, j as int, k),
            all_in_class(s@, i as int, j as int, k),
        decreases n - j,
    {
        j = j + 1;
    }
    j
}

/// A longer run of digits denotes at least as much.
proof fn lemma_decimal_grows(s: Seq<char>, d0: int, k: int, j: int)
    requires
        0 <= d0 <= k <= j <= s.len(),
        all_in_class(s, d0, j, CharClass::Digit),
    ensures
        decimal_value(s.subrange(d0, j)) >= decimal_value(s.subrange(d0, k)),
    decreases j - k,
{
    if k < j {
        lemma_decimal_grows(s, d0, k, j - 1);
        assert(s.subrange(d0, j).drop_last() =~= s.subrange(d0, j - 1));
        assert(in_class(s[j - 1], CharClass::Digit));
    }
}

/// The number that the digits at `d0..d1` denote, if it fits in a word.
fn read_number(s: &str, d0: usize, d1: usize) -> (r: Option<usize>)
    requires
        is_ascii(s),
        d0 <= d1 <= s@.len(),
        all_in_class(s@, d0 as int, d1 as int, CharClass::Digit),
    ensures
        match r {
            Some(v) => decimal_value(s@.subrange(d0 as int, d1 as int)) == v as nat,
            None => decimal_value(s@.subrange(d0 as int, d1 as int)) > usize::MAX,
        },
{
    let mut v: usize = 0;
    let mut k = d0;
    proof {
        assert(s@.subrange(d0 as int, d0 as int) =~= Seq::<char>::empty());
    }
    while k < d1
        invariant
            is_ascii(s),
            d0 <= k <= d1 <= s@.len(),
            all_in_class(s@, d0 as int, d1 as int, CharClass::Digit),
            decimal_value(s@.subrange(d0 as int, k as int)) == v as nat,
        decreases d1 - k,
    {
        let c = code_at(s, k);
        proof {
            assert(in_class(s@[k as int], CharClass::Digit));
            assert(s@.subrange(d0 as int, k + 1).drop_last() =~= s@.subrange(d0 as int, k as int));
        }
        let d = (c - 48) as usize;
        assert(decimal_value(s@.subrange(d0 as int, k + 1)) == v * 10 + d);
        if v > (usize::MAX - d) / 10 {
            proof {
                assert(v * 10 + d > usize::MAX) by (nonlinear_arith)
                    requires
                        v > (usize::MAX - d) / 10,
                        d <= 9,
                ;
                lemma_decimal_grows(s@, d0 as int, k + 1, d1 as int);
            }
            return None;
        }
        proof {
            assert(v * 10 + d <= usize::MAX) by (nonlinear_arith)
                requires
                    v <= (usize::MAX - d) / 10,
                    d <= 9,
            ;
        }
        v = v * 10 + d;
        k = k + 1;
    }
    Some(v)
}

/// The dependency list that starts at `p`, as [`deps_from`] reads it.
fn read_deps(s: &str, p: usize) -> (r: Option<(Vec<String>, usize)>)
    requires
        is_ascii(s),
        p <= s@.len(),
    ensures
        match r {
            Some((v, q)) => deps_from(s@, p as int) == Some((names_of(v@), q as int)) && q
                <= s@.len(),
            None => deps_from(s@, p as int) is None,
        },
    decreases s@.len() - p,
{
    let e = skip_class(s, p, CharClass::Alnum);
    if !(p < e) {
        return None;
    }
    let item = s.substring_ascii(p, e).to_owned();
    let t = skip_class(s, e, CharClass::Blank);
    if at_char(s, t, 93) {
        let mut v: Vec<String> = Vec::new();
        v.push(item);
        proof {
            assert(names_of(v@) =~= seq![s@.subrange(p as int, e as int)]);
        }
        return Some((v, t + 1));
    }
    let a = skip_class(s, e, CharClass::White);
    if at_char(s, a, 44) {
        let b = skip_class(s, a + 1, CharClass::White);
        match read_deps(s, b) {
            Some((rest, q)) => {
                let mut v: Vec<String> = Vec::new();
                v.push(item);
                let ghost rest_names = names_of(rest@);
                let mut rest = rest;
                v.append(&mut rest);
                proof {
                    assert(names_of(v@) =~= seq![s@.subrange(p as int, e as int)] + rest_names);
                }
                Some((v, q))
            },
            None => None,
        }
    } else {
        None
    }
}

/// The line break at `q`, as [`line_break_at`] reads it.
fn read_line_break(s: &str, q: usize) -> (r: Option<usize>)
    requires
        is_ascii(s),
        q <= s@.len(),
    ensures
        match r {
            Some(l) => line_break_at(s@, q as int) == Some(l as int) && l <= s@.len(),
            None => line_break_at(s@, q as int) is None,
        },
{
    let sp = skip_class(s, q, CharClass::Blank);
    let le: Option<usize> = if at_char(s, sp, 10) {
        Some(sp + 1)
    } else if at_char(s, sp, 13) && at_char(s, sp + 1, 10) {
        Some(sp + 2)
    } else {
        None
    };
    proof {
        match le {
            Some(l) => assert(line_end(s@, sp as int) == Some(l as int)),
            None => assert(line_end(s@, sp as int) is None),
        }
    }
    match le {
        Some(l) => if l < s.unicode_len() && at_class(s, l, CharClass::Alnum) {
            Some(l)
        } else {
            None
        },
        None => None,
    }
}

/// The dependency clause at `q`, as [`deps_clause`] reads it.
fn read_clause(s: &str, q: usize) -> (r: Option<(Vec<String>, usize)>)
    requires
        is_ascii(s),
        q <= s@.len(),
    ensures
        match r {
            Some((v, e)) => deps_clause(s@, q as int) == Some((names_of(v@), e as int)) && e
                <= s@.len(),
            None => deps_clause(s@, q as int) is None,
        },
{
    let n = s.unicode_len();
    let m1 = skip_class(s, q, CharClass::White);
    let has_after = m1 > q && m1 < n && n - m1 >= 5 && at_char(s, m1, 97) && at_char(s, m1 + 1, 102)
        && at_char(s, m1 + 2, 116) && at_char(s, m1 + 3, 101) && at_char(s, m1 + 4, 114);
    proof {
        if has_after {
            assert(s@.subrange(m1 as int, m1 + 5) =~= seq!['a', 'f', 't', 'e', 'r']);
        }
        if after_at(s@, m1 as int) {
            let w = s@.subrange(m1 as int, m1 + 5);
            assert(w[0] == 'a' && w[1] == 'f' && w[2] == 't' && w[3] == 'e' && w[4] == 'r');
        }
    }
    if has_after {
        let m2 = skip_class(s, m1 + 5, CharClass::White);
        if m2 > m1 + 5 && at_char(s, m2, 91) {
            let st = skip_class(s, m2 + 1, CharClass::Blank);
            return read_deps(s, st);
        }
    }
    None
}

/// What follows a task's `)` at `q`, as [`deps_after`] reads it.
fn read_after(s: &str, q: usize) -> (r: Option<(Vec<String>, usize)>)
    requires
        is_ascii(s),
        q <= s@.len(),
    ensures
        match r {
            Some((v, e)) => deps_after(s@, q as int) == Some((names_of(v@), e as int)) && e
                <= s@.len(),
            None => deps_after(s@, q as int) is None,
        },
{
    let n = s.unicode_len();
    let m1 = skip_class(s, q, CharClass::White);
    if m1 == n {
        let v: Vec<String> = Vec::new();
        proof {
            assert(names_of(v@) =~= Seq::<Seq<char>>::empty());
        }
        return Some((v, n));
    }
    match read_line_break(s, q) {
        Some(l) => {
            let v: Vec<String> = Vec::new();
            proof {
                assert(names_of(v@) =~= Seq::<Seq<char>>::empty());
            }
            Some((v, l))
        },
        None => read_clause(s, q),
    }
}

/// The task written at `p`, as [`task_at`] reads it.
fn read_task<'a>(s: &'a str, p: usize) -> (r: Option<(Task<'a>, usize)>)
    requires
        is_ascii(s),
        p <= s@.len(),
    ensures
        match r {
            Some((t, q)) => task_at(s@, p as int) matches Some((syntax, q2)) && q2 == q as int
                && task_matches(t, syntax) && q <= s@.len(),
            None => task_at(s@, p as int) is None,
        },
{
    let e = skip_class(s, p, CharClass::Alnum);
    if !(p < e && at_char(s, e, 40)) {
        return None;
    }
    let d0 = e + 1;
    let d1 = skip_class(s, d0, CharClass::Digit);
    if !(d0 < d1 && at_char(s, d1, 41)) {
        return None;
    }
    let duration = match read_number(s, d0, d1) {
        Some(v) => v,
        None => {
            return None;
        },
    };
    match read_after(s, d1 + 1) {
        Some((deps, r)) => {
            let name = s.substring_ascii(p, e);
            Some((Task::new(name, duration, deps), r))
        },
        None => None,
    }
}

/// The tasks written from `p` to the end, as [`tasks_from`] reads them.
fn read_tasks<'a>(s: &'a str, p: usize) -> (r: Option<Vec<Task<'a>>>)
    requires
        is_ascii(s),
        p <= s@.len(),
    ensures
        match r {
            Some(v) => tasks_from(s@, p as int) matches Some(spec) && v@.len() == spec.len()
                && forall|i: int| 0 <= i < spec.len() ==> task_matches(#[trigger] v@[i], spec[i]),
            None => tasks_from(s@, p as int) is None,
        },
    decreases s@.len() - p,
{
    let (t, q) = match read_task(s, p) {
        Some(found) => found,
        None => {
            return None;
        },
    };
    let ghost syntax = task_at(s@, p as int)->Some_0.0;
    let next = skip_class(s, q, CharClass::White);
    let mut v: Vec<Task<'a>> = Vec::new();
    v.push(t);
    if next == s.unicode_len() {
        return Some(v);
    }
    if !(p < next) {
        return None;
    }
    match read_tasks(s, next) {
        Some(rest) => {
            let ghost rest_spec = tasks_from(s@, next as int)->Some_0;
            let ghost rest_view = rest@;
            let mut rest = rest;
            v.append(&mut rest);
            proof {
                let spec = seq![syntax] + rest_spec;
                assert forall|i: int| 0 <= i < spec.len() implies task_matches(
                    #[trigger] v@[i],
                    spec[i],
                ) by {
                    if i > 0 {
                        assert(v@[i] == rest_view[i - 1]);
                        assert(spec[i] == rest_spec[i - 1]);
                    }
                }
            }
            Some(v)
        },
        None => None,
    }
}

/// A task name and its `(`: gives the rest of the input and the name.
pub fn parse_name(input: &str) -> (r: Result<(&str, &str), ParseError>)
    ensures
        r is Ok <==> is_ascii(input) && 0 < skip(input@, 0, CharClass::Alnum) < input@.len()
            && input@[skip(input@, 0, CharClass::Alnum)] == '(',
        r matches Ok((rest, name)) ==> name@ == input@.subrange(
            0,
            skip(input@, 0, CharClass::Alnum),
        ) && rest@ == input@.subrange(skip(input@, 0, CharClass::Alnum) + 1, input@.len() as int),
{
    if !input.is_ascii() {
        return Err(ParseError);
    }
    let e = skip_class(input, 0, CharClass::Alnum);
    if 0 < e && at_char(input, e, 40) {
        Ok((input.substring_ascii(e + 1, input.unicode_len()), input.substring_ascii(0, e)))
    } else {
        Err(ParseError)
    }
}

/// A duration and its `)`: gives the rest of the input and the number.
pub fn parse_duration(input: &str) -> (r: Result<(&str, usize), ParseError>)
    ensures
        r is Ok <==> is_ascii(input) && 0 < skip(input@, 0, CharClass::Digit) < input@.len()
            && input@[skip(input@, 0, CharClass::Digit)] == ')' && decimal_value(
            input@.subrange(0, skip(input@, 0, CharClass::Digit)),
        ) <= usize::MAX,
        r matches Ok((rest, v)) ==> v as nat == decimal_value(
            input@.subrange(0, skip(input@, 0, CharClass::Digit)),
        ) && rest@ == input@.subrange(skip(input@, 0, CharClass::Digit) + 1, input@.len() as int),
{
    if !input.is_ascii() {
        return Err(ParseError);
    }
    let d = skip_class(input, 0, CharClass::Digit);
    if !(0 < d && at_char(input, d, 41)) {
        return Err(ParseError);
    }
    match read_number(input, 0, d) {
        Some(v) => Ok((input.substring_ascii(d + 1, input.unicode_len()), v)),
        None => Err(ParseError),
    }
}

/// Blanks and a line ending before a task name: gives the rest of the input,
/// from the name on, and no dependencies.
pub fn parse_check_no_dependencies(input: &str) -> (r: Result<(&str, Vec<String>), ParseError>)
    ensures
        r is Ok <==> is_ascii(input) && line_break_at(input@, 0) is Some,
        r matches Ok((rest, deps)) ==> rest@ == input@.subrange(
            line_break_at(input@, 0)->Some_0,
            input@.len() as int,
        ) && deps@.len() == 0,
{
    if !input.is_ascii() {
        return Err(ParseError);
    }
    match read_line_break(input, 0) {
        Some(l) => Ok((input.substring_ascii(l, input.unicode_len()), Vec::new())),
        None => Err(ParseError),
    }
}

/// A dependency clause: gives the rest of the input and the names.
pub fn parse_dependencies(input: &str) -> (r: Result<(&str, Vec<String>), ParseError>)
    ensures
        r is Ok <==> is_ascii(input) && deps_clause(input@, 0) is Some,
        r matches Ok((rest, deps)) ==> deps_clause(input@, 0) matches Some((names, q)) && names
            == names_of(deps@) && rest@ == input@.subrange(q, input@.len() as int),
{
    if !input.is_ascii() {
        return Err(ParseError);
    }
    match read_clause(input, 0) {
        Some((deps, q)) => Ok((input.substring_ascii(q, input.unicode_len()), deps)),
        None => Err(ParseError),
    }
}

/// Reads a job: one or more tasks `name(duration)`, each followed by the end
/// of the input, by a line ending before the next name, or by
/// `after [dependency, ...]`; white space separates tasks. Input that is not
/// ASCII, or that does not follow this grammar, is refused.
pub fn parse_job(input: &str) -> (r: Result<Vec<Task>, ParseError>)
    ensures
        !is_ascii(input) ==> r is Err,
        is_ascii(input) ==> (r is Ok <==> tasks_from(input@, 0) is Some),
        r matches Ok(v) ==> tasks_from(input@, 0) matches Some(spec) && v@.len() == spec.len()
            && forall|i: int| 0 <= i < spec.len() ==> task_matches(#[trigger] v@[i], spec[i]),
{
    if !input.is_ascii() {
        return Err(ParseError);
    }
    match read_tasks(input, 0) {
        Some(v) => Ok(v),
        None => Err(ParseError),
    }
}

} // verus!
