use crate::jsontext::{
    append_json_string, append_str, expect_lit, has_at, lemma_has_at_split,
    lemma_parse_string_inverts, parse_string_at, render_string, spec_parse_string,
};
use crate::timefmt::{
    format_rfc3339, now_clamped, parse_rfc3339_millis, rfc3339_of, ts_of, valid_ts, MAX_TS,
};
use vstd::prelude::*;

verus! {

/// Stage of a task's life.
#[derive(Copy, Clone, PartialEq, Eq, Structural, Debug)]
pub enum TaskStatus {
    Todo,
    Doing,
    Completed,
}

/// Mathematical model of a [`Task`]: its observable fields, with timestamps
/// as unbounded millisecond counts.
pub struct TaskModel {
    pub title: Seq<char>,
    pub description: Seq<char>,
    pub status: TaskStatus,
    pub creation: int,
    pub completion: Option<int>,
}

/// A well-formed task: timestamps in range, and a completion time recorded
/// exactly when the status is `Completed`, never earlier than creation.
pub open spec fn task_wf(m: TaskModel) -> bool {
    &&& valid_ts(m.creation)
    &&& (m.status == TaskStatus::Completed <==> m.completion is Some)
    &&& match m.completion {
        Some(c) => valid_ts(c) && c >= m.creation,
        None => true,
    }
}

/// A unit of work inside a project: a title and description, a status, and
/// the timestamps of its creation and (when completed) completion.
pub struct Task {
    pub title: String,
    pub description: String,
    status: TaskStatus,
    creation_timestamp: i64,
    completion_timestamp: Option<i64>,
}

impl View for Task {
    type V = TaskModel;

    closed spec fn view(&self) -> TaskModel {
        TaskModel {
            title: self.title@,
            description: self.description@,
            status: self.status,
            creation: self.creation_timestamp as int,
            completion: match self.completion_timestamp {
                Some(c) => Some(c as int),
                None => None,
            },
        }
    }
}

impl Task {
    /// A fresh task: status `Todo`, created now, with no completion time.
    pub fn new(title: &str, description: &str) -> (t: Task)
        ensures
            t@.title == title@,
            t@.description == description@,
            t@.status == TaskStatus::Todo,
            t@.completion is None,
            task_wf(t@),
    {
        let creation = now_clamped();
        Task {
            title: title.to_owned(),
            description: description.to_owned(),
            status: TaskStatus::Todo,
            creation_timestamp: creation,
            completion_timestamp: None,
        }
    }

    /// A fresh task created at an explicitly given time: status `Todo`,
    /// with no completion time.
    pub fn new_at(title: &str, description: &str, creation: i64) -> (t: Task)
        requires
            valid_ts(creation as int),
        ensures
            t@ == (TaskModel {
                title: title@,
                description: description@,
                status: TaskStatus::Todo,
                creation: creation as int,
                completion: None::<int>,
            }),
            task_wf(t@),
    {
        Task {
            title: title.to_owned(),
            description: description.to_owned(),
            status: TaskStatus::Todo,
            creation_timestamp: creation,
            completion_timestamp: None,
        }
    }

    /// Rebuild a task from its stored fields; reserved for code that reads
    /// the serialized form back in.
    pub(crate) fn from_parts(
        title: String,
        description: String,
        status: TaskStatus,
        creation_timestamp: i64,
        completion_timestamp: Option<i64>,
    ) -> (t: Task)
        ensures
            t@ == (TaskModel {
                title: title@,
                description: description@,
                status: status,
                creation: creation_timestamp as int,
                completion: match completion_timestamp {
                    Some(c) => Some(c as int),
                    None => None,
                },
            }),
    {
        Task { title, description, status, creation_timestamp, completion_timestamp }
    }


    /// Whether the task is well-formed; true for every task built through
    /// this type's own operations.
    pub fn is_wf(&self) -> (r: bool)
        ensures
            r == task_wf(self@),
    {
        let creation_ok = 0 <= self.creation_timestamp && self.creation_timestamp <= MAX_TS;
        let completed = match self.status {
            TaskStatus::Completed => true,
            _ => false,
        };
        match self.completion_timestamp {
            Some(c) => creation_ok && completed && 0 <= c && c <= MAX_TS && c
                >= self.creation_timestamp,
            None => creation_ok && !completed,
        }
    }

    /// The current status.
    pub fn get_status(&self) -> (s: TaskStatus)
        ensures
            s == self@.status,
    {
        self.status
    }

    /// Set the status, stamping a transition to `Completed` with the current
    /// time and clearing the completion time on any other transition.
    pub fn set_status(&mut self, status: TaskStatus)
        requires
            task_wf(old(self)@),
        ensures
            final(self)@.status == status,
            final(self)@.title == old(self)@.title,
            final(self)@.description == old(self)@.description,
            final(self)@.creation == old(self)@.creation,
            status == TaskStatus::Completed ==> (final(self)@.completion matches Some(c) && c
                >= old(self)@.creation),
            status != TaskStatus::Completed ==> final(self)@.completion is None,
            task_wf(final(self)@),
    {
        let t = now_clamped();
        self.set_status_at(status, t);
    }

    /// Set the status, recording `t` as the completion time of a transition
    /// to `Completed`; a clock reading earlier than the creation time is
    /// clamped up to it, so completion never precedes creation.
    pub fn set_status_at(&mut self, status: TaskStatus, t: i64)
        requires
            task_wf(old(self)@),
            valid_ts(t as int),
        ensures
            final(self)@.status == status,
            final(self)@.title == old(self)@.title,
            final(self)@.description == old(self)@.description,
            final(self)@.creation == old(self)@.creation,
            final(self)@.completion == (if status == TaskStatus::Completed {
                Some(
                    if t as int >= old(self)@.creation {
                        t as int
                    } else {
                        old(self)@.creation
                    },
                )
            } else {
                None::<int>
            }),
            task_wf(final(self)@),
    {
        self.status = status;
        self.completion_timestamp = match status {
            TaskStatus::Completed => Some(
                if t >= self.creation_timestamp {
                    t
                } else {
                    self.creation_timestamp
                },
            ),
            _ => None,
        };
    }

    /// The creation time, in milliseconds since the epoch.
    pub fn get_creation_timestamp(&self) -> (t: i64)
        ensures
            t as int == self@.creation,
    {
        self.creation_timestamp
    }

    /// The completion time, present exactly while the status is `Completed`.
    pub fn get_completion_timestamp(&self) -> (t: Option<i64>)
        ensures
            match t {
                Some(c) => self@.completion == Some(c as int),
                None => self@.completion is None,
            },
    {
        self.completion_timestamp
    }
}

/// Whether the calendar library reads a task's timestamp renderings back
/// to the same instants; serializing a task establishes it.
pub open spec fn task_invertible(m: TaskModel) -> bool {
    &&& ts_of(rfc3339_of(m.creation as i64)) == Some(m.creation as i64)
    &&& (m.completion matches Some(c) ==> ts_of(rfc3339_of(c as i64)) == Some(c as i64))
}

/// The JSON tag denoting a status.
pub open spec fn render_status(st: TaskStatus) -> Seq<char> {
    match st {
        TaskStatus::Todo => "\"Todo\""@,
        TaskStatus::Doing => "\"Doing\""@,
        TaskStatus::Completed => "\"Completed\""@,
    }
}

/// The JSON rendering of an optional completion time: `null`, or the quoted
/// RFC 3339 string.
pub open spec fn render_completion(c: Option<int>) -> Seq<char> {
    match c {
        None => "null"@,
        Some(t) => render_string(rfc3339_of(t as i64)),
    }
}

/// The JSON rendering of a task: an object with its five fields in a fixed
/// order, timestamps as quoted RFC 3339 strings.
pub open spec fn render_task(m: TaskModel) -> Seq<char> {
    "{\"title\":"@ + render_string(m.title) + ",\"description\":"@ + render_string(m.description)
        + ",\"status\":"@ + render_status(m.status) + ",\"creation_timestamp\":"@ + render_string(
        rfc3339_of(m.creation as i64),
    ) + ",\"completion_timestamp\":"@ + render_completion(m.completion) + "}"@
}

/// The status tag at position `i`, if any.
pub open spec fn spec_parse_status(s: Seq<char>, i: int) -> Option<(TaskStatus, int)> {
    if has_at(s, i, "\"Todo\""@) {
        Some((TaskStatus::Todo, i + "\"Todo\""@.len()))
    } else if has_at(s, i, "\"Doing\""@) {
        Some((TaskStatus::Doing, i + "\"Doing\""@.len()))
    } else if has_at(s, i, "\"Completed\""@) {
        Some((TaskStatus::Completed, i + "\"Completed\""@.len()))
    } else {
        None
    }
}

/// The quoted RFC 3339 timestamp at position `i`, if the string there
/// denotes an in-range instant.
pub open spec fn spec_parse_ts(s: Seq<char>, i: int) -> Option<(int, int)> {
    match spec_parse_string(s, i) {
        Some((txt, j)) => match ts_of(txt) {
            Some(t) => if valid_ts(t as int) {
                Some((t as int, j))
            } else {
                None
            },
            None => None,
        },
        None => None,
    }
}

/// The optional completion time at position `i`: `null` or a quoted
/// timestamp.
pub open spec fn spec_parse_completion(s: Seq<char>, i: int) -> Option<(Option<int>, int)> {
    if has_at(s, i, "null"@) {
        Some((None, i + "null"@.len()))
    } else {
        match spec_parse_ts(s, i) {
            Some((t, j)) => Some((Some(t), j)),
            None => None,
        }
    }
}

/// The task object at position `i`: fields in the renderer's order, with
/// the completion time accepted only when it is consistent with the status
/// and not earlier than creation.
pub open spec fn spec_parse_task(s: Seq<char>, i: int) -> Option<(TaskModel, int)> {
    if !has_at(s, i, "{\"title\":"@) {
        None
    } else {
        match spec_parse_string(s, i + "{\"title\":"@.len()) {
            None => None,
            Some((title, i2)) => if !has_at(s, i2, ",\"description\":"@) {
                None
            } else {
                match spec_parse_string(s, i2 + ",\"description\":"@.len()) {
                    None => None,
                    Some((description, i3)) => if !has_at(s, i3, ",\"status\":"@) {
                        None
                    } else {
                        match spec_parse_status(s, i3 + ",\"status\":"@.len()) {
                            None => None,
                            Some((status, i4)) => if !has_at(s, i4, ",\"creation_timestamp\":"@) {
                                None
                            } else {
                                match spec_parse_ts(s, i4 + ",\"creation_timestamp\":"@.len()) {
                                    None => None,
                                    Some((creation, i5)) => if !has_at(
                                        s,
                                        i5,
                                        ",\"completion_timestamp\":"@,
                                    ) {
                                        None
                                    } else {
                                        match spec_parse_completion(
                                            s,
                                            i5 + ",\"completion_timestamp\":"@.len(),
                                        ) {
                                            None => None,
                                            Some((completion, i6)) => if !has_at(s, i6, "}"@) {
                                                None
                                            } else {
                                                let m = TaskModel {
                                                    title,
                                                    description,
                                                    status,
                                                    creation,
                                                    completion,
                                                };
                                                if task_wf(m) {
                                                    Some((m, i6 + 1))
                                                } else {
                                                    None
                                                }
                                            },
                                        }
                                    },
                                }
                            },
                        }
                    },
                }
            },
        }
    }
}

/// A parsed task is well-formed.
pub proof fn lemma_parse_task_wf(s: Seq<char>, i: int)
    ensures
        spec_parse_task(s, i) matches Some((m, j)) ==> task_wf(m),
{
}

/// Parsing inverts rendering, for tasks: where the rendering of a
/// well-formed task occurs, and the calendar library reads its own
/// timestamp renderings back, the parser recovers exactly that task.
pub proof fn lemma_parse_task_inverts(s: Seq<char>, i: int, m: TaskModel)
    requires
        has_at(s, i, render_task(m)),
        task_wf(m),
        task_invertible(m),
    ensures
        spec_parse_task(s, i) == Some((m, i + render_task(m).len())),
{
    let p1 = "{\"title\":"@;
    let p2 = render_string(m.title);
    let p3 = ",\"description\":"@;
    let p4 = render_string(m.description);
    let p5 = ",\"status\":"@;
    let p6 = render_status(m.status);
    let p7 = ",\"creation_timestamp\":"@;
    let p8 = render_string(rfc3339_of(m.creation as i64));
    let p9 = ",\"completion_timestamp\":"@;
    let p10 = render_completion(m.completion);
    let p11 = "}"@;
    reveal_strlit("}");
    lemma_has_at_split(s, i, p1 + p2 + p3 + p4 + p5 + p6 + p7 + p8 + p9 + p10, p11);
    lemma_has_at_split(s, i, p1 + p2 + p3 + p4 + p5 + p6 + p7 + p8 + p9, p10);
    lemma_has_at_split(s, i, p1 + p2 + p3 + p4 + p5 + p6 + p7 + p8, p9);
    lemma_has_at_split(s, i, p1 + p2 + p3 + p4 + p5 + p6 + p7, p8);
    lemma_has_at_split(s, i, p1 + p2 + p3 + p4 + p5 + p6, p7);
    lemma_has_at_split(s, i, p1 + p2 + p3 + p4 + p5, p6);
    lemma_has_at_split(s, i, p1 + p2 + p3 + p4, p5);
    lemma_has_at_split(s, i, p1 + p2 + p3, p4);
    lemma_has_at_split(s, i, p1 + p2, p3);
    lemma_has_at_split(s, i, p1, p2);
    let o2 = i + p1.len();
    let o3 = o2 + p2.len();
    let o4 = o3 + p3.len();
    let o5 = o4 + p4.len();
    let o6 = o5 + p5.len();
    let o7 = o6 + p6.len();
    let o8 = o7 + p7.len();
    let o9 = o8 + p8.len();
    let o10 = o9 + p9.len();
    let o11 = o10 + p10.len();
    lemma_parse_string_inverts(s, o2, m.title);
    lemma_parse_string_inverts(s, o4, m.description);
    lemma_parse_string_inverts(s, o8, rfc3339_of(m.creation as i64));
    proof_status_at(s, o6, m.status);
    assert(spec_parse_ts(s, o8) == Some((m.creation, o9)));
    match m.completion {
        None => {
            assert(spec_parse_completion(s, o10) == Some((None::<int>, o11)));
        },
        Some(c) => {
            lemma_parse_string_inverts(s, o10, rfc3339_of(c as i64));
            assert(!has_at(s, o10, "null"@)) by {
                reveal_strlit("null");
                assert(s[o10] == '"');
                if has_at(s, o10, "null"@) {
                    assert(s[o10 + 0] == "null"@[0]);
                }
            }
            assert(spec_parse_completion(s, o10) == Some((Some(c), o11)));
        },
    }
    assert(s[o11] == '}') by {
        reveal_strlit("}");
        assert(s[o11 + 0] == p11[0]);
    }
    assert(has_at(s, o11, "}"@));
    assert(spec_parse_task(s, i) == Some((m, o11 + p11.len())));
}

/// The status parser recovers the rendered status tag.
proof fn proof_status_at(s: Seq<char>, i: int, st: TaskStatus)
    requires
        has_at(s, i, render_status(st)),
    ensures
        spec_parse_status(s, i) == Some((st, i + render_status(st).len())),
{
    reveal_strlit("\"Todo\"");
    reveal_strlit("\"Doing\"");
    reveal_strlit("\"Completed\"");
    match st {
        TaskStatus::Todo => {},
        TaskStatus::Doing => {
            if has_at(s, i, "\"Todo\""@) {
                assert(s[i + 1] == "\"Todo\""@[1]);
                assert(s[i + 1] == "\"Doing\""@[1]);
            }
        },
        TaskStatus::Completed => {
            if has_at(s, i, "\"Todo\""@) {
                assert(s[i + 1] == "\"Todo\""@[1]);
                assert(s[i + 1] == "\"Completed\""@[1]);
            }
            if has_at(s, i, "\"Doing\""@) {
                assert(s[i + 1] == "\"Doing\""@[1]);
                assert(s[i + 1] == "\"Completed\""@[1]);
            }
        },
    }
}

impl Task {
    /// Append the task's JSON rendering.
    pub(crate) fn write_json(&self, out: &mut Vec<char>)
        requires
            valid_ts(self@.creation),
            self@.completion matches Some(c) ==> valid_ts(c),
        ensures
            final(out)@ == old(out)@ + render_task(self@),
            task_invertible(self@),
    {
        append_str(out, "{\"title\":");
        append_json_string(out, self.title.as_str());
        append_str(out, ",\"description\":");
        append_json_string(out, self.description.as_str());
        append_str(out, ",\"status\":");
        match self.status {
            TaskStatus::Todo => append_str(out, "\"Todo\""),
            TaskStatus::Doing => append_str(out, "\"Doing\""),
            TaskStatus::Completed => append_str(out, "\"Completed\""),
        }
        append_str(out, ",\"creation_timestamp\":");
        let cs = format_rfc3339(self.creation_timestamp);
        append_json_string(out, cs.as_str());
        append_str(out, ",\"completion_timestamp\":");
        match self.completion_timestamp {
            None => append_str(out, "null"),
            Some(c) => {
                let ds = format_rfc3339(c);
                append_json_string(out, ds.as_str());
            },
        }
        append_str(out, "}");
        proof {
            assert(out@ =~= old(out)@ + render_task(self@));
        }
    }

    /// Parse the task object at position `i`.
    pub(crate) fn parse_json_at(v: &Vec<char>, i: usize) -> (r: Option<(Task, usize)>)
        ensures
            match r {
                Some((t, j)) => spec_parse_task(v@, i as int) == Some((t@, j as int)),
                None => spec_parse_task(v@, i as int) is None,
            },
    {
        let i1 = match expect_lit(v, i, "{\"title\":") {
            Some(j) => j,
            None => {
                return None;
            },
        };
        let (title, i2) = match parse_string_at(v, i1) {
            Some(x) => x,
            None => {
                return None;
            },
        };
        let i2b = match expect_lit(v, i2, ",\"description\":") {
            Some(j) => j,
            None => {
                return None;
            },
        };
        let (description, i3) = match parse_string_at(v, i2b) {
            Some(x) => x,
            None => {
                return None;
            },
        };
        let i3b = match expect_lit(v, i3, ",\"status\":") {
            Some(j) => j,
            None => {
                return None;
            },
        };
        let (status, i4) = match Task::parse_status_at(v, i3b) {
            Some(x) => x,
            None => {
                return None;
            },
        };
        let i4b = match expect_lit(v, i4, ",\"creation_timestamp\":") {
            Some(j) => j,
            None => {
                return None;
            },
        };
        let (creation, i5) = match Task::parse_ts_at(v, i4b) {
            Some(x) => x,
            None => {
                return None;
            },
        };
        let i5b = match expect_lit(v, i5, ",\"completion_timestamp\":") {
            Some(j) => j,
            None => {
                return None;
            },
        };
        let (completion, i6) = match Task::parse_completion_at(v, i5b) {
            Some(x) => x,
            None => {
                return None;
            },
        };
        let i7 = match expect_lit(v, i6, "}") {
            Some(j) => j,
            None => {
                return None;
            },
        };
        let completed = match status {
            TaskStatus::Completed => true,
            _ => false,
        };
        match completion {
            Some(c) => {
                if !completed || c < creation {
                    return None;
                }
            },
            None => {
                if completed {
                    return None;
                }
            },
        }
        proof {
            reveal_strlit("}");
            assert(valid_ts(creation as int));
            match completion {
                Some(c) => {
                    assert(valid_ts(c as int));
                },
                None => {},
            }
        }
        Some((Task::from_parts(title, description, status, creation, completion), i7))
    }

    /// Parse the status tag at position `i`.
    pub(crate) fn parse_status_at(v: &Vec<char>, i: usize) -> (r: Option<(TaskStatus, usize)>)
        ensures
            match r {
                Some((st, j)) => spec_parse_status(v@, i as int) == Some((st, j as int)),
                None => spec_parse_status(v@, i as int) is None,
            },
    {
        match expect_lit(v, i, "\"Todo\"") {
            Some(j) => {
                return Some((TaskStatus::Todo, j));
            },
            None => {},
        }
        match expect_lit(v, i, "\"Doing\"") {
            Some(j) => {
                return Some((TaskStatus::Doing, j));
            },
            None => {},
        }
        match expect_lit(v, i, "\"Completed\"") {
            Some(j) => {
                return Some((TaskStatus::Completed, j));
            },
            None => {},
        }
        None
    }

    /// Parse the quoted RFC 3339 timestamp at position `i`.
    pub(crate) fn parse_ts_at(v: &Vec<char>, i: usize) -> (r: Option<(i64, usize)>)
        ensures
            match r {
                Some((t, j)) => spec_parse_ts(v@, i as int) == Some((t as int, j as int)),
                None => spec_parse_ts(v@, i as int) is None,
            },
    {
        let (txt, j) = match parse_string_at(v, i) {
            Some(x) => x,
            None => {
                return None;
            },
        };
        match parse_rfc3339_millis(txt.as_str()) {
            Some(t) => {
                if 0 <= t && t <= MAX_TS {
                    Some((t, j))
                } else {
                    None
                }
            },
            None => None,
        }
    }

    /// Parse the optional completion time at position `i`.
    pub(crate) fn parse_completion_at(v: &Vec<char>, i: usize) -> (r: Option<(Option<i64>, usize)>)
        ensures
            match r {
                Some((t, j)) => spec_parse_completion(v@, i as int) == Some(
                    (
                        match t {
                            Some(c) => Some(c as int),
                            None => None,
                        },
                        j as int,
                    ),
                ),
                None => spec_parse_completion(v@, i as int) is None,
            },
    {
        match expect_lit(v, i, "null") {
            Some(j) => {
                return Some((None, j));
            },
            None => {},
        }
        match Task::parse_ts_at(v, i) {
            Some((t, j)) => Some((Some(t), j)),
            None => None,
        }
    }
}

} // verus!
