use crate::helper::{
    lemma_map_entries_get, lemma_map_entries_max, lemma_map_entries_remove, lemma_index_of_bounds, lemma_max_key_bounds,
    lemma_next_id_fresh, lemma_remove_keeps_wf, map_entries, map_wf, spec_get, spec_index_of,
    spec_max_key, spec_next_id, spec_remove, AutoIncrementalMap, MapId,
};
use crate::jsontext::{
    append_json_string, append_key, append_str, dec_of, expect_lit, has_at, is_digit,
    lemma_dec_of_digits, lemma_has_at_join, lemma_has_at_split, lemma_parse_key_inverts,
    lemma_parse_string_inverts, parse_key_at, parse_string_at, render_string, spec_parse_key,
    spec_parse_string,
};
use crate::task::{
    lemma_parse_task_inverts, lemma_parse_task_wf, render_task, spec_parse_task, spec_parse_ts,
    task_invertible, task_wf, Task, TaskModel, TaskStatus,
};
use crate::timefmt::{format_rfc3339, now_clamped, rfc3339_of, ts_of, valid_ts};
use vstd::prelude::*;

verus! {

/// Key of a task within its project.
pub type TaskId = MapId;

/// Mathematical model of a [`Project`]: a title, the task entries in
/// insertion order, and the creation time.
pub struct ProjectModel {
    pub title: Seq<char>,
    pub tasks: Seq<(MapId, TaskModel)>,
    pub creation: int,
}

/// A well-formed project: creation time in range, task keys distinct and at
/// least `1`, every task well-formed.
pub open spec fn project_wf(m: ProjectModel) -> bool {
    &&& valid_ts(m.creation)
    &&& map_wf(m.tasks)
    &&& forall|i: int| 0 <= i < m.tasks.len() ==> task_wf((#[trigger] m.tasks[i]).1)
}

/// Whether every task records a completion time.
pub open spec fn all_completed(tasks: Seq<(MapId, TaskModel)>) -> bool {
    forall|i: int| 0 <= i < tasks.len() ==> (#[trigger] tasks[i]).1.completion is Some
}

/// Whether every task's status is `Completed`.
pub open spec fn all_status_completed(tasks: Seq<(MapId, TaskModel)>) -> bool {
    forall|i: int| 0 <= i < tasks.len() ==> (#[trigger] tasks[i]).1.status == TaskStatus::Completed
}

/// The largest completion time recorded, `0` as the empty default; meant for
/// task sequences where every completion time is present.
pub open spec fn spec_max_completion(tasks: Seq<(MapId, TaskModel)>) -> int
    decreases tasks.len(),
{
    if tasks.len() == 0 {
        0
    } else {
        let rest = spec_max_completion(tasks.drop_last());
        let c = tasks.last().1.completion.unwrap();
        if c > rest {
            c
        } else {
            rest
        }
    }
}

/// The derived completion time of a project: absent while the project has no
/// tasks or some task is unfinished, else the largest completion time.
pub open spec fn spec_completion(tasks: Seq<(MapId, TaskModel)>) -> Option<int> {
    if tasks.len() > 0 && all_completed(tasks) {
        Some(spec_max_completion(tasks))
    } else {
        None
    }
}

/// On a non-empty, fully completed task sequence with non-negative
/// completion times, the largest completion time bounds every completion
/// time and is attained by some task.
pub proof fn lemma_max_completion_bounds(tasks: Seq<(MapId, TaskModel)>)
    requires
        tasks.len() > 0,
        all_completed(tasks),
        forall|i: int| 0 <= i < tasks.len() ==> (#[trigger] tasks[i]).1.completion.unwrap() >= 0,
    ensures
        forall|i: int|
            0 <= i < tasks.len() ==> (#[trigger] tasks[i]).1.completion.unwrap()
                <= spec_max_completion(tasks),
        exists|i: int|
            0 <= i < tasks.len() && (#[trigger] tasks[i]).1.completion == Some(
                spec_max_completion(tasks),
            ),
    decreases tasks.len(),
{
    let rest = tasks.drop_last();
    assert(forall|i: int| 0 <= i < rest.len() ==> rest[i] == tasks[i]);
    let c = tasks.last().1.completion.unwrap();
    if tasks.len() == 1 {
        assert(tasks[0].1.completion == Some(spec_max_completion(tasks)));
    } else {
        lemma_max_completion_bounds(rest);
        if c as int > spec_max_completion(rest) {
            assert(tasks[tasks.len() - 1].1.completion == Some(spec_max_completion(tasks)));
        } else {
            let w = choose|i: int|
                0 <= i < rest.len() && (#[trigger] rest[i]).1.completion == Some(
                    spec_max_completion(rest),
                );
            assert(tasks[w].1.completion == Some(spec_max_completion(tasks)));
        }
    }
}

/// Law: a project with no tasks, or with some task lacking a completion
/// time, reports no completion time; a non-empty project whose every task
/// has one reports their maximum, which some task attains. Under
/// well-formedness, "every status is `Completed`" and "every completion time
/// is present" are the same condition.
pub proof fn lemma_project_completion(m: ProjectModel)
    requires
        project_wf(m),
    ensures
        m.tasks.len() == 0 ==> spec_completion(m.tasks) is None,
        (exists|i: int| 0 <= i < m.tasks.len() && (#[trigger] m.tasks[i]).1.completion is None)
            ==> spec_completion(m.tasks) is None,
        m.tasks.len() > 0 && all_completed(m.tasks) ==> {
            &&& spec_completion(m.tasks) == Some(spec_max_completion(m.tasks))
            &&& exists|i: int|
                0 <= i < m.tasks.len() && (#[trigger] m.tasks[i]).1.completion == Some(
                    spec_max_completion(m.tasks),
                )
            &&& forall|i: int|
                0 <= i < m.tasks.len() ==> (#[trigger] m.tasks[i]).1.completion.unwrap()
                    <= spec_max_completion(m.tasks)
        },
        all_status_completed(m.tasks) <==> all_completed(m.tasks),
{
    if m.tasks.len() > 0 && all_completed(m.tasks) {
        assert(forall|i: int|
            0 <= i < m.tasks.len() ==> (#[trigger] m.tasks[i]).1.completion.unwrap() >= 0);
        lemma_max_completion_bounds(m.tasks);
    }
}


/// Whether the calendar library reads every timestamp rendering in these
/// task entries back to the same instant.
pub open spec fn tasks_invertible(tasks: Seq<(MapId, TaskModel)>) -> bool {
    forall|t: int| 0 <= t < tasks.len() ==> task_invertible((#[trigger] tasks[t]).1)
}

/// Whether the calendar library reads every timestamp rendering in this
/// project back to the same instant; serializing a project establishes it.
pub open spec fn project_invertible(m: ProjectModel) -> bool {
    &&& ts_of(rfc3339_of(m.creation as i64)) == Some(m.creation as i64)
    &&& tasks_invertible(m.tasks)
}

/// The JSON rendering of one task entry: the quoted decimal key, a colon,
/// and the task object.
pub open spec fn render_task_entry(k: MapId, m: TaskModel) -> Seq<char> {
    seq!['"'] + dec_of(k as int) + "\":"@ + render_task(m)
}

/// The JSON rendering of the entries of a task object, comma-separated.
pub open spec fn render_tasks_inner(tasks: Seq<(MapId, TaskModel)>) -> Seq<char>
    decreases tasks.len(),
{
    if tasks.len() == 0 {
        Seq::empty()
    } else if tasks.len() == 1 {
        render_task_entry(tasks[0].0, tasks[0].1)
    } else {
        render_task_entry(tasks[0].0, tasks[0].1) + seq![','] + render_tasks_inner(
            tasks.drop_first(),
        )
    }
}

/// The JSON rendering of a task object: entries in entry order between
/// braces.
pub open spec fn render_tasks(tasks: Seq<(MapId, TaskModel)>) -> Seq<char> {
    seq!['{'] + render_tasks_inner(tasks) + seq!['}']
}

/// The JSON rendering of a project: an object with its three fields in a
/// fixed order.
pub open spec fn render_project(m: ProjectModel) -> Seq<char> {
    "{\"title\":"@ + render_string(m.title) + ",\"tasks\":"@ + render_tasks(m.tasks)
        + ",\"creation_timestamp\":"@ + render_string(rfc3339_of(m.creation as i64)) + "}"@
}

/// The task entry at position `i`: a quoted key, a colon, and a task.
pub open spec fn spec_parse_task_entry(s: Seq<char>, i: int) -> Option<(MapId, TaskModel, int)> {
    if 0 <= i < s.len() && s[i] == '"' {
        match spec_parse_key(s, i + 1) {
            Some((n, j)) => if has_at(s, j, "\":"@) {
                match spec_parse_task(s, j + "\":"@.len()) {
                    Some((m, j2)) => Some((n as MapId, m, j2)),
                    None => None,
                }
            } else {
                None
            },
            None => None,
        }
    } else {
        None
    }
}

/// The remaining entries of a task object from position `i`, extending
/// `acc`: entries separated by commas until the closing brace, every key
/// fresh.
pub open spec fn spec_parse_tasks_entries(
    s: Seq<char>,
    i: int,
    acc: Seq<(MapId, TaskModel)>,
) -> Option<(Seq<(MapId, TaskModel)>, int)>
    decreases s.len() - i,
{
    match spec_parse_task_entry(s, i) {
        None => None,
        Some((k, m, j)) => if spec_get(acc, k) is Some {
            None
        } else if i < j && j <= s.len() {
            let acc2 = acc.push((k, m));
            if j < s.len() && s[j] == ',' {
                spec_parse_tasks_entries(s, j + 1, acc2)
            } else if j < s.len() && s[j] == '}' {
                Some((acc2, j + 1))
            } else {
                None
            }
        } else {
            None
        },
    }
}

/// The task object at position `i`.
pub open spec fn spec_parse_tasks(s: Seq<char>, i: int) -> Option<(Seq<(MapId, TaskModel)>, int)> {
    if 0 <= i < s.len() && s[i] == '{' {
        if i + 1 < s.len() && s[i + 1] == '}' {
            Some((Seq::empty(), i + 2))
        } else {
            spec_parse_tasks_entries(s, i + 1, Seq::empty())
        }
    } else {
        None
    }
}

/// The project object at position `i`: fields in the renderer's order.
pub open spec fn spec_parse_project(s: Seq<char>, i: int) -> Option<(ProjectModel, int)> {
    if !has_at(s, i, "{\"title\":"@) {
        None
    } else {
        match spec_parse_string(s, i + "{\"title\":"@.len()) {
            None => None,
            Some((title, i2)) => if !has_at(s, i2, ",\"tasks\":"@) {
                None
            } else {
                match spec_parse_tasks(s, i2 + ",\"tasks\":"@.len()) {
                    None => None,
                    Some((tasks, i3)) => if !has_at(s, i3, ",\"creation_timestamp\":"@) {
                        None
                    } else {
                        match spec_parse_ts(s, i3 + ",\"creation_timestamp\":"@.len()) {
                            None => None,
                            Some((creation, i4)) => if !has_at(s, i4, "}"@) {
                                None
                            } else {
                                Some((ProjectModel { title, tasks, creation }, i4 + 1))
                            },
                        }
                    },
                }
            },
        }
    }
}

/// Entries parsed on top of well-formed contents are well-formed.
proof fn lemma_parse_entries_wf(s: Seq<char>, i: int, acc: Seq<(MapId, TaskModel)>)
    requires
        map_wf(acc),
        forall|t: int| 0 <= t < acc.len() ==> task_wf((#[trigger] acc[t]).1),
    ensures
        spec_parse_tasks_entries(s, i, acc) matches Some((out, j)) ==> map_wf(out) && (forall|
            t: int,
        | 0 <= t < out.len() ==> task_wf((#[trigger] out[t]).1)),
    decreases s.len() - i,
{
    match spec_parse_task_entry(s, i) {
        None => {},
        Some((k, m, j)) => {
            lemma_parse_task_wf(s, j + "\":"@.len());
            if spec_get(acc, k) is None && i < j && j <= s.len() {
                crate::helper::lemma_get_none_absent(acc, k);
                let acc2 = acc.push((k, m));
                assert(map_wf(acc2)) by {
                    assert(forall|t: int| 0 <= t < acc.len() ==> acc2[t] == acc[t]);
                    assert(acc2[acc.len() as int].0 == k);
                }
                assert(forall|t: int| 0 <= t < acc2.len() ==> task_wf((#[trigger] acc2[t]).1)) by {
                    assert(forall|t: int| 0 <= t < acc.len() ==> acc2[t] == acc[t]);
                }
                if j < s.len() && s[j] == ',' {
                    lemma_parse_entries_wf(s, j + 1, acc2);
                }
            }
        },
    }
}

/// A parsed task object is well-formed.
pub proof fn lemma_parse_tasks_wf(s: Seq<char>, i: int)
    ensures
        spec_parse_tasks(s, i) matches Some((out, j)) ==> map_wf(out) && (forall|t: int|
            0 <= t < out.len() ==> task_wf((#[trigger] out[t]).1)),
{
    if 0 <= i < s.len() && s[i] == '{' && !(i + 1 < s.len() && s[i + 1] == '}') {
        lemma_parse_entries_wf(s, i + 1, Seq::empty());
    }
}

/// A parsed project is well-formed.
pub proof fn lemma_parse_project_wf(s: Seq<char>, i: int)
    ensures
        spec_parse_project(s, i) matches Some((m, j)) ==> project_wf(m),
{
    if has_at(s, i, "{\"title\":"@) {
        match spec_parse_string(s, i + "{\"title\":"@.len()) {
            None => {},
            Some((title, i2)) => {
                lemma_parse_tasks_wf(s, i2 + ",\"tasks\":"@.len());
            },
        }
    }
}

/// Parsing inverts rendering, for one task entry.
proof fn lemma_parse_entry_inverts(s: Seq<char>, i: int, k: MapId, m: TaskModel)
    requires
        has_at(s, i, render_task_entry(k, m)),
        k >= 1,
        task_wf(m),
        task_invertible(m),
    ensures
        spec_parse_task_entry(s, i) == Some((k, m, i + render_task_entry(k, m).len())),
{
    let q = seq!['"'];
    let d = dec_of(k as int);
    let qc = "\":"@;
    let tk = render_task(m);
    reveal_strlit("\":");
    lemma_has_at_split(s, i, q + d + qc, tk);
    lemma_has_at_split(s, i, q + d, qc);
    lemma_has_at_split(s, i, q, d);
    assert(s[i] == q[0]);
    lemma_dec_of_digits(k as int);
    let jd = i + 1 + d.len();
    assert(s[jd] == qc[0]) by {
        assert(s[i + 1 + d.len() + 0] == qc[0]);
    }
    assert(!is_digit(s[jd]));
    lemma_parse_key_inverts(s, i + 1, k as int);
    lemma_parse_task_inverts(s, jd + qc.len(), m);
    assert(spec_parse_task_entry(s, i) == Some((k, m, jd + qc.len() + tk.len())));
}

/// Parsing inverts rendering, for the entries of a non-empty task object.
proof fn lemma_parse_entries_inverts(
    s: Seq<char>,
    i: int,
    tasks: Seq<(MapId, TaskModel)>,
    acc: Seq<(MapId, TaskModel)>,
)
    requires
        tasks.len() > 0,
        has_at(s, i, render_tasks_inner(tasks) + seq!['}']),
        map_wf(acc + tasks),
        forall|t: int| 0 <= t < tasks.len() ==> task_wf((#[trigger] tasks[t]).1),
        tasks_invertible(tasks),
    ensures
        spec_parse_tasks_entries(s, i, acc) == Some(
            (acc + tasks, i + render_tasks_inner(tasks).len() + 1),
        ),
    decreases tasks.len(),
{
    let k = tasks[0].0;
    let m = tasks[0].1;
    let e = render_task_entry(k, m);
    assert((acc + tasks)[acc.len() as int] == tasks[0]);
    assert(tasks[0].1 == m);
    assert(k >= 1 && task_wf(m) && task_invertible(m));
    assert(map_wf(tasks)) by {
        assert(forall|t: int| 0 <= t < tasks.len() ==> (acc + tasks)[acc.len() + t] == tasks[t]);
    }
    assert(spec_get(acc, k) is None) by {
        if spec_get(acc, k) is Some {
            crate::helper::lemma_index_of_bounds(acc, k);
            let w = spec_index_of(acc, k);
            assert((acc + tasks)[w].0 == (acc + tasks)[acc.len() as int].0);
        }
    }
    if tasks.len() == 1 {
        assert(render_tasks_inner(tasks) == e);
        lemma_has_at_split(s, i, e, seq!['}']);
        lemma_parse_entry_inverts(s, i, k, m);
        let j = i + e.len();
        assert(s[j] == '}') by {
            assert(s[i + e.len() + 0] == (seq!['}'])[0]);
        }
        assert(s[j] != ',');
        assert(i < j) by {
            reveal_strlit("\":");
            lemma_dec_of_digits(k as int);
        }
        assert(acc.push((k, m)) =~= acc + tasks);
        assert(spec_parse_tasks_entries(s, i, acc) == Some((acc + tasks, j + 1)));
    } else {
        let rest = tasks.drop_first();
        assert(render_tasks_inner(tasks) == e + seq![','] + render_tasks_inner(rest));
        assert((e + seq![','] + render_tasks_inner(rest)) + seq!['}'] =~= (e + seq![',']) + (
        render_tasks_inner(rest) + seq!['}']));
        lemma_has_at_split(s, i, e + seq![','], render_tasks_inner(rest) + seq!['}']);
        lemma_has_at_split(s, i, e, seq![',']);
        lemma_parse_entry_inverts(s, i, k, m);
        let j = i + e.len();
        assert(s[j] == ',') by {
            assert(s[i + e.len() + 0] == (seq![','])[0]);
        }
        assert(i < j) by {
            reveal_strlit("\":");
            lemma_dec_of_digits(k as int);
        }
        let acc2 = acc.push((k, m));
        assert(acc2 + rest =~= acc + tasks);
        assert(forall|t: int| 0 <= t < rest.len() ==> rest[t] == tasks[t + 1]);
        lemma_parse_entries_inverts(s, j + 1, rest, acc2);
        assert(spec_parse_tasks_entries(s, i, acc) == Some(
            (acc + tasks, j + 1 + render_tasks_inner(rest).len() + 1),
        ));
    }
}

/// Parsing inverts rendering, for task objects.
pub proof fn lemma_parse_tasks_inverts(s: Seq<char>, i: int, tasks: Seq<(MapId, TaskModel)>)
    requires
        has_at(s, i, render_tasks(tasks)),
        map_wf(tasks),
        forall|t: int| 0 <= t < tasks.len() ==> task_wf((#[trigger] tasks[t]).1),
        tasks_invertible(tasks),
    ensures
        spec_parse_tasks(s, i) == Some((tasks, i + render_tasks(tasks).len())),
{
    let inner = render_tasks_inner(tasks);
    assert(render_tasks(tasks) =~= (seq!['{'] + inner) + seq!['}']);
    lemma_has_at_split(s, i, seq!['{'] + inner, seq!['}']);
    lemma_has_at_split(s, i, seq!['{'], inner);
    assert(s[i + 0] == (seq!['{'])[0]);
    assert(s[i] == '{');
    assert(s[i + 1 + inner.len() + 0] == (seq!['}'])[0]);
    if tasks.len() == 0 {
        assert(inner =~= Seq::<char>::empty());
        assert(s[i + 1] == '}');
        assert(Seq::<(MapId, TaskModel)>::empty() =~= tasks);
    } else {
        let e = render_task_entry(tasks[0].0, tasks[0].1);
        assert(inner[0] == e[0]) by {
            if tasks.len() > 1 {
                assert(inner == e + seq![','] + render_tasks_inner(tasks.drop_first()));
                assert(((e + seq![',']) + render_tasks_inner(tasks.drop_first()))[0] == (e
                    + seq![','])[0]);
            }
        }
        assert(e[0] == '"') by {
            assert(e == ((seq!['"'] + dec_of(tasks[0].0 as int)) + "\":"@) + render_task(
                tasks[0].1,
            ));
        }
        assert(s[i + 1] == inner[0]) by {
            assert(inner.len() > 0);
            assert(s[i + 1 + 0] == inner[0]);
        }
        assert(s[i + 1] != '}');
        lemma_has_at_join(s, i + 1, inner, seq!['}']);
        assert(Seq::<(MapId, TaskModel)>::empty() + tasks =~= tasks);
        lemma_parse_entries_inverts(s, i + 1, tasks, Seq::empty());
    }
}

/// Parsing inverts rendering, for projects: where the rendering of a
/// well-formed project occurs, and the calendar library reads its own
/// timestamp renderings back, the parser recovers exactly that project.
pub proof fn lemma_parse_project_inverts(s: Seq<char>, i: int, m: ProjectModel)
    requires
        has_at(s, i, render_project(m)),
        project_wf(m),
        project_invertible(m),
    ensures
        spec_parse_project(s, i) == Some((m, i + render_project(m).len())),
{
    let p1 = "{\"title\":"@;
    let p2 = render_string(m.title);
    let p3 = ",\"tasks\":"@;
    let p4 = render_tasks(m.tasks);
    let p5 = ",\"creation_timestamp\":"@;
    let p6 = render_string(rfc3339_of(m.creation as i64));
    let p7 = "}"@;
    reveal_strlit("}");
    lemma_has_at_split(s, i, p1 + p2 + p3 + p4 + p5 + p6, p7);
    lemma_has_at_split(s, i, p1 + p2 + p3 + p4 + p5, p6);
    lemma_has_at_split(s, i, p1 + p2 + p3 + p4, p5);
    lemma_has_at_split(s, i, p1 + p2 + p3, p4);
    lemma_has_at_split(s, i, p1 + p2, p3);
    lemma_has_at_split(s, i, p1, p2);
    let o2 = i + p1.len();
    let o3 = o2 + p2.len();
    let o4 = o3 + p3.len();
    let o5 = o4 + p4.len();
    let o6 = o5 + p5.len();
    let o7 = o6 + p6.len();
    lemma_parse_string_inverts(s, o2, m.title);
    lemma_parse_tasks_inverts(s, o4, m.tasks);
    lemma_parse_string_inverts(s, o6, rfc3339_of(m.creation as i64));
    assert(spec_parse_ts(s, o6) == Some((m.creation, o7)));
    assert(s[o7] == '}') by {
        assert(s[o7 + 0] == p7[0]);
    }
    assert(has_at(s, o7, "}"@));
    assert(spec_parse_project(s, i) == Some((m, o7 + p7.len())));
}

/// A project: a titled collection of tasks created at a known time, whose
/// derived completion time is computed from its tasks rather than stored.
pub struct Project {
    title: String,
    tasks: AutoIncrementalMap<Task>,
    creation_timestamp: i64,
}

/// The function that sends each stored task to its model, as the project's
/// view does.
pub open spec fn task_view() -> spec_fn(Task) -> TaskModel {
    |t: Task| t@
}

impl View for Project {
    type V = ProjectModel;

    closed spec fn view(&self) -> ProjectModel {
        ProjectModel {
            title: self.title@,
            tasks: map_entries(self.tasks@, task_view()),
            creation: self.creation_timestamp as int,
        }
    }
}

impl Project {
    /// A fresh project with the given title, created now, with no tasks.
    pub fn new(name: &str) -> (p: Project)
        ensures
            p@.title == name@,
            p@.tasks.len() == 0,
            project_wf(p@),
    {
        let p = Project {
            title: name.to_owned(),
            tasks: AutoIncrementalMap::default(),
            creation_timestamp: now_clamped(),
        };
        proof {
            assert(p@.tasks =~= Seq::<(MapId, TaskModel)>::empty());
        }
        p
    }

    /// A fresh project created at an explicitly given time, with no tasks.
    pub fn new_at(name: &str, creation: i64) -> (p: Project)
        requires
            valid_ts(creation as int),
        ensures
            p@.title == name@,
            p@.tasks.len() == 0,
            p@.creation == creation as int,
            project_wf(p@),
    {
        let p = Project {
            title: name.to_owned(),
            tasks: AutoIncrementalMap::default(),
            creation_timestamp: creation,
        };
        proof {
            assert(p@.tasks =~= Seq::<(MapId, TaskModel)>::empty());
        }
        p
    }

    /// Rebuild a project from its stored fields; reserved for code that
    /// reads the serialized form back in.
    pub(crate) fn from_parts(
        title: String,
        tasks: AutoIncrementalMap<Task>,
        creation_timestamp: i64,
    ) -> (p: Project)
        ensures
            p@ == (ProjectModel {
                title: title@,
                tasks: map_entries(tasks@, task_view()),
                creation: creation_timestamp as int,
            }),
    {
        Project { title, tasks, creation_timestamp }
    }


    /// Whether this project is well-formed; true for every project built
    /// through this type's own operations.
    pub fn is_wf(&self) -> (r: bool)
        ensures
            r == project_wf(self@),
    {
        if !(0 <= self.creation_timestamp && self.creation_timestamp <= crate::timefmt::MAX_TS) {
            return false;
        }
        proof {
            lemma_map_entries_max(self.tasks@, task_view());
        }
        if !self.tasks.keys_wf() {
            return false;
        }
        let n = self.tasks.len();
        let mut i: usize = 0;
        while i < n
            invariant
                i <= n,
                n == self@.tasks.len(),
                map_wf(self@.tasks),
                valid_ts(self@.creation),
                forall|t: int| 0 <= t < i ==> task_wf((#[trigger] self@.tasks[t]).1),
            decreases n - i,
        {
            let entry = self.tasks.entry_at(i);
            if !entry.1.is_wf() {
                proof {
                    assert(self@.tasks[i as int] == (entry.0, entry.1@));
                }
                return false;
            }
            i += 1;
        }
        true
    }

    /// The title.
    pub fn get_title(&self) -> (r: &str)
        ensures
            r@ == self@.title,
    {
        self.title.as_str()
    }

    /// Replace the title; tasks and creation time stay as they are.
    pub fn set_title(&mut self, title: &str)
        ensures
            final(self)@ == (ProjectModel { title: title@, ..old(self)@ }),
    {
        self.title = title.to_owned();
    }

    /// Add a task under a fresh key — one greater than the largest task key
    /// present, or `1` on an empty project — and return that key.
    pub fn add_task(&mut self, task: Task) -> (id: TaskId)
        requires
            spec_max_key(old(self)@.tasks) < MapId::MAX as int,
        ensures
            id as int == spec_next_id(old(self)@.tasks),
            final(self)@.tasks == old(self)@.tasks.push((id, task@)),
            final(self)@.title == old(self)@.title,
            final(self)@.creation == old(self)@.creation,
            project_wf(old(self)@) && task_wf(task@) ==> project_wf(final(self)@),
    {
        proof {
            lemma_map_entries_max(self.tasks@, task_view());
        }
        let id = self.tasks.add(task);
        proof {
            lemma_map_entries_max(old(self).tasks@, task_view());
            assert(final(self)@.tasks =~= old(self)@.tasks.push((id, task@)));
            if project_wf(old(self)@) && task_wf(task@) {
                lemma_next_id_fresh(old(self)@.tasks);
                lemma_max_key_bounds(old(self)@.tasks);
                let out = final(self)@.tasks;
                assert(forall|i: int| 0 <= i < out.len() - 1 ==> out[i] == old(self)@.tasks[i]);
                assert(map_wf(out));
                assert(project_wf(final(self)@));
            }
        }
        id
    }

    /// Detach and return the task under `task_id`; other tasks keep their
    /// keys.
    pub fn remove_task(&mut self, task_id: TaskId) -> (r: Option<Task>)
        ensures
            final(self)@.tasks == spec_remove(old(self)@.tasks, task_id),
            match r {
                Some(t) => spec_get(old(self)@.tasks, task_id) == Some(t@),
                None => spec_get(old(self)@.tasks, task_id) is None,
            },
            final(self)@.title == old(self)@.title,
            final(self)@.creation == old(self)@.creation,
            project_wf(old(self)@) ==> project_wf(final(self)@),
    {
        let r = self.tasks.remove(task_id);
        proof {
            lemma_map_entries_remove(old(self).tasks@, task_id, task_view());
            lemma_map_entries_get(old(self).tasks@, task_id, task_view());
            if project_wf(old(self)@) {
                lemma_remove_keeps_wf(old(self)@.tasks, task_id);
                assert forall|i: int| 0 <= i < final(self)@.tasks.len() implies task_wf(
                    (#[trigger] final(self)@.tasks[i]).1,
                ) by {
                    let w = choose|j: int|
                        0 <= j < old(self)@.tasks.len() && final(self)@.tasks[i] == old(
                            self,
                        )@.tasks[j];
                }
            }
        }
        r
    }

    /// Drop every task; the title and creation time stay as they are.
    pub fn clear_tasks(&mut self)
        ensures
            final(self)@.tasks.len() == 0,
            final(self)@.title == old(self)@.title,
            final(self)@.creation == old(self)@.creation,
            project_wf(old(self)@) ==> project_wf(final(self)@),
    {
        self.tasks = AutoIncrementalMap::default();
        proof {
            assert(final(self)@.tasks =~= Seq::<(MapId, TaskModel)>::empty());
        }
    }

    /// The task under `task_id`, or absent.
    pub fn get_task(&self, task_id: TaskId) -> (r: Option<&Task>)
        ensures
            match r {
                Some(t) => spec_get(self@.tasks, task_id) == Some(t@),
                None => spec_get(self@.tasks, task_id) is None,
            },
    {
        proof {
            lemma_map_entries_get(self.tasks@, task_id, task_view());
        }
        self.tasks.get(task_id)
    }

    /// Every task currently held, in entry order; callers must not rely on
    /// any particular order.
    pub fn get_all_tasks(&self) -> (r: Vec<&Task>)
        ensures
            r@.len() == self@.tasks.len(),
            forall|i: int| 0 <= i < self@.tasks.len() ==> (#[trigger] r@[i])@ == self@.tasks[i].1,
    {
        self.tasks.get_values()
    }

    /// A mutable borrow of the task under `task_id`, or absent.
    pub fn get_task_mut(&mut self, task_id: TaskId) -> (r: Option<&mut Task>)
        ensures
            match spec_get(old(self)@.tasks, task_id) {
                Some(v) => {
                    &&& r is Some
                    &&& (*r.unwrap())@ == v
                    &&& final(self)@.tasks == old(self)@.tasks.update(
                        spec_index_of(old(self)@.tasks, task_id),
                        (task_id, (*final(r.unwrap()))@),
                    )
                    &&& final(self)@.title == old(self)@.title
                    &&& final(self)@.creation == old(self)@.creation
                },
                None => r is None && final(self)@ == old(self)@,
            },
    {
        proof {
            lemma_map_entries_get(self.tasks@, task_id, task_view());
            lemma_map_entries_remove(self.tasks@, task_id, task_view());
            if spec_get(self.tasks@, task_id) is Some {
                lemma_index_of_bounds(self.tasks@, task_id);
                let j = spec_index_of(self.tasks@, task_id);
                assert forall|x: Task|
                    #[trigger] map_entries(self.tasks@.update(j, (task_id, x)), task_view())
                        =~= map_entries(self.tasks@, task_view()).update(j, (task_id, x@)) by {
                    assert(forall|k: int|
                        0 <= k < self.tasks@.len() && k != j ==> self.tasks@.update(
                            j,
                            (task_id, x),
                        )[k] == self.tasks@[k]);
                }
            }
        }
        self.tasks.get_mut(task_id)
    }

    /// The creation time, in milliseconds since the epoch.
    pub fn get_creation_timestamp(&self) -> (t: i64)
        ensures
            t as int == self@.creation,
    {
        self.creation_timestamp
    }

    /// The derived completion time: absent while the project has no tasks or
    /// some task is unfinished, else the largest completion time among the
    /// tasks.
    pub fn get_completion_timestamp(&self) -> (r: Option<i64>)
        ensures
            match r {
                Some(c) => spec_completion(self@.tasks) == Some(c as int),
                None => spec_completion(self@.tasks) is None,
            },
    {
        let n = self.tasks.len();
        if n == 0 {
            return None;
        }
        let mut m: i64 = 0;
        let mut i: usize = 0;
        while i < n
            invariant
                0 < n == self@.tasks.len(),
                i <= n,
                all_completed(self@.tasks.take(i as int)),
                m as int == spec_max_completion(self@.tasks.take(i as int)),
            decreases n - i,
        {
            let entry = self.tasks.entry_at(i);
            match entry.1.get_completion_timestamp() {
                None => {
                    proof {
                        assert(self@.tasks[i as int].1.completion is None);
                        assert(!all_completed(self@.tasks));
                    }
                    return None;
                },
                Some(c) => {
                    proof {
                        assert(self@.tasks.take(i as int + 1).drop_last() =~= self@.tasks.take(
                            i as int,
                        ));
                        assert(self@.tasks.take(i as int + 1).last() == self@.tasks[i as int]);
                    }
                    if c > m {
                        m = c;
                    }
                },
            }
            i += 1;
        }
        proof {
            assert(self@.tasks.take(n as int) =~= self@.tasks);
        }
        Some(m)
    }

    /// Whether the project holds no tasks.
    pub fn is_empty(&self) -> (r: bool)
        ensures
            r == (self@.tasks.len() == 0),
    {
        self.tasks.is_empty()
    }

    /// The number of tasks held.
    pub fn get_tasks_count(&self) -> (n: usize)
        ensures
            n == self@.tasks.len(),
    {
        self.tasks.len()
    }

    /// Whether every task's status is `Completed`; vacuously true with no
    /// tasks.
    pub fn is_completed(&self) -> (r: bool)
        ensures
            r == all_status_completed(self@.tasks),
    {
        let n = self.tasks.len();
        let mut i: usize = 0;
        while i < n
            invariant
                n == self@.tasks.len(),
                i <= n,
                forall|j: int|
                    0 <= j < i ==> (#[trigger] self@.tasks[j]).1.status == TaskStatus::Completed,
            decreases n - i,
        {
            let entry = self.tasks.entry_at(i);
            match entry.1.get_status() {
                TaskStatus::Completed => {},
                _ => {
                    proof {
                        assert(self@.tasks[i as int].1.status != TaskStatus::Completed);
                    }
                    return false;
                },
            }
            i += 1;
        }
        true
    }
}


impl Project {
    /// Append this project's JSON rendering.
    pub(crate) fn write_json(&self, out: &mut Vec<char>)
        requires
            project_wf(self@),
        ensures
            final(out)@ == old(out)@ + render_project(self@),
            project_invertible(self@),
    {
        append_str(out, "{\"title\":");
        append_json_string(out, self.title.as_str());
        append_str(out, ",\"tasks\":");
        self.write_tasks_json(out);
        append_str(out, ",\"creation_timestamp\":");
        let cs = format_rfc3339(self.creation_timestamp);
        append_json_string(out, cs.as_str());
        append_str(out, "}");
        proof {
            assert(out@ =~= old(out)@ + render_project(self@));
        }
    }

    /// Append the JSON rendering of this project's task object.
    fn write_tasks_json(&self, out: &mut Vec<char>)
        requires
            map_wf(self@.tasks),
            forall|t: int| 0 <= t < self@.tasks.len() ==> task_wf((#[trigger] self@.tasks[t]).1),
        ensures
            final(out)@ == old(out)@ + render_tasks(self@.tasks),
            tasks_invertible(self@.tasks),
    {
        out.push('{');
        let n = self.tasks.len();
        let mut idx: usize = 0;
        proof {
            assert(self@.tasks.skip(0) =~= self@.tasks);
        }
        while idx < n
            invariant
                idx <= n,
                n == self@.tasks.len(),
                map_wf(self@.tasks),
                forall|t: int|
                    0 <= t < self@.tasks.len() ==> task_wf((#[trigger] self@.tasks[t]).1),
                forall|t: int|
                    0 <= t < idx ==> task_invertible((#[trigger] self@.tasks[t]).1),
                out@ + render_tasks_inner(self@.tasks.skip(idx as int)) == old(out)@ + seq!['{']
                    + render_tasks_inner(self@.tasks),
            decreases n - idx,
        {
            let ghost suffix = self@.tasks.skip(idx as int);
            proof {
                assert(suffix[0] == self@.tasks[idx as int]);
                assert(suffix.drop_first() =~= self@.tasks.skip(idx as int + 1));
            }
            let entry = self.tasks.entry_at(idx);
            let k = entry.0;
            proof {
                assert((k, entry.1@) == self@.tasks[idx as int]);
            }
            let ghost out0 = out@;
            out.push('"');
            append_key(out, k);
            append_str(out, "\":");
            entry.1.write_json(out);
            proof {
                assert(out@ =~= out0 + render_task_entry(k, entry.1@));
            }
            if idx + 1 < n {
                out.push(',');
                proof {
                    assert(render_tasks_inner(suffix) == render_task_entry(suffix[0].0, suffix[0].1)
                        + seq![','] + render_tasks_inner(suffix.drop_first()));
                    assert(out@ + render_tasks_inner(self@.tasks.skip(idx as int + 1)) =~= old(
                        out,
                    )@ + seq!['{'] + render_tasks_inner(self@.tasks));
                }
            } else {
                proof {
                    assert(render_tasks_inner(suffix) == render_task_entry(
                        suffix[0].0,
                        suffix[0].1,
                    ));
                    assert(self@.tasks.skip(idx as int + 1) =~= Seq::<(MapId, TaskModel)>::empty());
                    assert(out@ + render_tasks_inner(self@.tasks.skip(idx as int + 1)) =~= old(
                        out,
                    )@ + seq!['{'] + render_tasks_inner(self@.tasks));
                }
            }
            idx += 1;
        }
        out.push('}');
        proof {
            assert(self@.tasks.skip(n as int) =~= Seq::<(MapId, TaskModel)>::empty());
            assert(out@ =~= old(out)@ + render_tasks(self@.tasks));
        }
    }

    /// Parse the project object at position `i`.
    pub(crate) fn parse_json_at(v: &Vec<char>, i: usize) -> (r: Option<(Project, usize)>)
        ensures
            match r {
                Some((p, j)) => spec_parse_project(v@, i as int) == Some((p@, j as int)),
                None => spec_parse_project(v@, i as int) is None,
            },
    {
        let i1 = match expect_lit(v, i, "{\"title\":") {
            Some(j) => j,
            None => {
                return None;
            },
        };
        let (title, i2) = match parse_string_at(v, i1) {
            Some(x) => x,
            None => {
                return None;
            },
        };
        let i2b = match expect_lit(v, i2, ",\"tasks\":") {
            Some(j) => j,
            None => {
                return None;
            },
        };
        let (tasks, i3) = match Project::parse_tasks_at(v, i2b) {
            Some(x) => x,
            None => {
                return None;
            },
        };
        let i3b = match expect_lit(v, i3, ",\"creation_timestamp\":") {
            Some(j) => j,
            None => {
                return None;
            },
        };
        let (creation, i4) = match Task::parse_ts_at(v, i3b) {
            Some(x) => x,
            None => {
                return None;
            },
        };
        let i5 = match expect_lit(v, i4, "}") {
            Some(j) => j,
            None => {
                return None;
            },
        };
        proof {
            reveal_strlit("}");
        }
        Some((Project::from_parts(title, tasks, creation), i5))
    }

    /// Parse the task object at position `i`.
    fn parse_tasks_at(v: &Vec<char>, i: usize) -> (r: Option<(AutoIncrementalMap<Task>, usize)>)
        ensures
            match r {
                Some((map, j)) => spec_parse_tasks(v@, i as int) == Some(
                    (map_entries(map@, task_view()), j as int),
                ),
                None => spec_parse_tasks(v@, i as int) is None,
            },
    {
        if i >= v.len() || v[i] != '{' {
            return None;
        }
        if i + 1 < v.len() && v[i + 1] == '}' {
            let map: AutoIncrementalMap<Task> = AutoIncrementalMap::default();
            proof {
                assert(map_entries(map@, task_view()) =~= Seq::<(MapId, TaskModel)>::empty());
            }
            return Some((map, i + 2));
        }
        let mut acc: AutoIncrementalMap<Task> = AutoIncrementalMap::default();
        let mut cur: usize = i + 1;
        proof {
            assert(map_entries(acc@, task_view()) =~= Seq::<(MapId, TaskModel)>::empty());
        }
        while cur < v.len()
            invariant
                i as int + 1 <= cur as int,
                i < v@.len(),
                v@[i as int] == '{',
                !(i as int + 1 < v@.len() && v@[i as int + 1] == '}'),
                spec_parse_tasks_entries(v@, i as int + 1, Seq::empty()) == spec_parse_tasks_entries(
                    v@,
                    cur as int,
                    map_entries(acc@, task_view()),
                ),
            decreases v.len() - cur,
        {
            if v[cur] != '"' {
                return None;
            }
            let (k, j1) = match parse_key_at(v, cur + 1) {
                Some(x) => x,
                None => {
                    return None;
                },
            };
            let j2 = match expect_lit(v, j1, "\":") {
                Some(x) => x,
                None => {
                    return None;
                },
            };
            let (task, j3) = match Task::parse_json_at(v, j2) {
                Some(x) => x,
                None => {
                    return None;
                },
            };
            proof {
                lemma_map_entries_get(acc@, k, task_view());
            }
            match acc.get(k) {
                Some(_) => {
                    return None;
                },
                None => {},
            }
            if !(cur < j3 && j3 <= v.len()) {
                return None;
            }
            let ghost acc0 = acc@;
            acc.push_entry(k, task);
            proof {
                assert(map_entries(acc@, task_view()) =~= map_entries(acc0, task_view()).push(
                    (k, task@),
                ));
            }
            if j3 < v.len() && v[j3] == ',' {
                cur = j3 + 1;
            } else if j3 < v.len() && v[j3] == '}' {
                return Some((acc, j3 + 1));
            } else {
                return None;
            }
        }
        None
    }
}

} // verus!
