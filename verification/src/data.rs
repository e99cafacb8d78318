pub use crate::project::{Project, ProjectModel, TaskId};
pub use crate::task::{Task, TaskModel, TaskStatus};

use crate::error::Error;
use crate::helper::{
    lemma_get_none_absent, lemma_index_of_bounds, lemma_map_entries_get, map_entries, map_wf,
    spec_get, spec_index_of, AutoIncrementalMap, MapId,
};
use crate::jsontext::{
    append_key, append_str, chars_of, dec_of, expect_lit, has_at, is_digit, lemma_dec_of_digits,
    lemma_has_at_join, lemma_has_at_split, lemma_parse_key_inverts, parse_key_at,
    spec_parse_key, string_from_chars,
};
use crate::project::{
    lemma_parse_project_inverts, lemma_parse_project_wf, project_invertible, project_wf,
    render_project, spec_parse_project,
};
use vstd::prelude::*;

verus! {

/// Key of a project within the data tree.
pub type ProjectId = MapId;

/// Mathematical model of [`Data`]: the project entries in insertion order.
pub struct DataModel {
    pub projects: Seq<(MapId, ProjectModel)>,
}

/// Well-formed data: project keys distinct and at least `1`, every project
/// well-formed.
pub open spec fn data_wf(m: DataModel) -> bool {
    &&& map_wf(m.projects)
    &&& forall|i: int| 0 <= i < m.projects.len() ==> project_wf((#[trigger] m.projects[i]).1)
}

/// The function that sends each stored project to its model, as the data
/// tree's view does.
pub open spec fn project_view() -> spec_fn(Project) -> ProjectModel {
    |p: Project| p@
}

/// The whole in-memory tree that a save writes and a load replaces
/// wholesale: every project, each holding its tasks.
pub struct Data {
    pub projects: AutoIncrementalMap<Project>,
}

impl View for Data {
    type V = DataModel;

    open spec fn view(&self) -> DataModel {
        DataModel { projects: map_entries(self.projects@, project_view()) }
    }
}

impl Default for Data {
    /// An empty tree: no projects.
    fn default() -> (r: Data)
        ensures
            r@.projects.len() == 0,
            data_wf(r@),
    {
        let r = Data { projects: AutoIncrementalMap::default() };
        proof {
            assert(r@.projects =~= Seq::<(MapId, ProjectModel)>::empty());
        }
        r
    }
}


/// Whether the calendar library reads every timestamp rendering in this
/// tree back to the same instant; serializing the tree establishes it.
pub open spec fn data_invertible(m: DataModel) -> bool {
    forall|t: int| 0 <= t < m.projects.len() ==> project_invertible((#[trigger] m.projects[t]).1)
}

/// The JSON rendering of one project entry: the quoted decimal key, a
/// colon, and the project object.
pub open spec fn render_project_entry(k: MapId, m: ProjectModel) -> Seq<char> {
    seq!['"'] + dec_of(k as int) + "\":"@ + render_project(m)
}

/// The JSON rendering of the entries of the projects object,
/// comma-separated.
pub open spec fn render_projects_inner(ps: Seq<(MapId, ProjectModel)>) -> Seq<char>
    decreases ps.len(),
{
    if ps.len() == 0 {
        Seq::empty()
    } else if ps.len() == 1 {
        render_project_entry(ps[0].0, ps[0].1)
    } else {
        render_project_entry(ps[0].0, ps[0].1) + seq![','] + render_projects_inner(
            ps.drop_first(),
        )
    }
}

/// The JSON rendering of the projects object: entries in entry order
/// between braces.
pub open spec fn render_projects(ps: Seq<(MapId, ProjectModel)>) -> Seq<char> {
    seq!['{'] + render_projects_inner(ps) + seq!['}']
}

/// The JSON rendering of the whole data document.
pub open spec fn render_data(m: DataModel) -> Seq<char> {
    "{\"projects\":"@ + render_projects(m.projects) + "}"@
}

/// The project entry at position `i`: a quoted key, a colon, and a project.
pub open spec fn spec_parse_project_entry(s: Seq<char>, i: int) -> Option<
    (MapId, ProjectModel, int),
> {
    if 0 <= i < s.len() && s[i] == '"' {
        match spec_parse_key(s, i + 1) {
            Some((n, j)) => if has_at(s, j, "\":"@) {
                match spec_parse_project(s, j + "\":"@.len()) {
                    Some((m, j2)) => Some((n as MapId, m, j2)),
                    None => None,
                }
            } else {
                None
            },
            None => None,
        }
    } else {
        None
    }
}

/// The remaining entries of the projects object from position `i`,
/// extending `acc`: entries separated by commas until the closing brace,
/// every key fresh.
pub open spec fn spec_parse_projects_entries(
    s: Seq<char>,
    i: int,
    acc: Seq<(MapId, ProjectModel)>,
) -> Option<(Seq<(MapId, ProjectModel)>, int)>
    decreases s.len() - i,
{
    match spec_parse_project_entry(s, i) {
        None => None,
        Some((k, m, j)) => if spec_get(acc, k) is Some {
            None
        } else if i < j && j <= s.len() {
            let acc2 = acc.push((k, m));
            if j < s.len() && s[j] == ',' {
                spec_parse_projects_entries(s, j + 1, acc2)
            } else if j < s.len() && s[j] == '}' {
                Some((acc2, j + 1))
            } else {
                None
            }
        } else {
            None
        },
    }
}

/// The projects object at position `i`.
pub open spec fn spec_parse_projects(s: Seq<char>, i: int) -> Option<
    (Seq<(MapId, ProjectModel)>, int),
> {
    if 0 <= i < s.len() && s[i] == '{' {
        if i + 1 < s.len() && s[i + 1] == '}' {
            Some((Seq::empty(), i + 2))
        } else {
            spec_parse_projects_entries(s, i + 1, Seq::empty())
        }
    } else {
        None
    }
}

/// The whole data document: a single object holding the projects object,
/// with nothing after it.
pub open spec fn spec_parse_data(s: Seq<char>) -> Option<DataModel> {
    if !has_at(s, 0, "{\"projects\":"@) {
        None
    } else {
        match spec_parse_projects(s, "{\"projects\":"@.len() as int) {
            None => None,
            Some((ps, j)) => if has_at(s, j, "}"@) && j + 1 == s.len() {
                Some(DataModel { projects: ps })
            } else {
                None
            },
        }
    }
}

/// Entries parsed on top of well-formed contents are well-formed.
proof fn lemma_parse_projects_entries_wf(s: Seq<char>, i: int, acc: Seq<(MapId, ProjectModel)>)
    requires
        map_wf(acc),
        forall|t: int| 0 <= t < acc.len() ==> project_wf((#[trigger] acc[t]).1),
    ensures
        spec_parse_projects_entries(s, i, acc) matches Some((out, j)) ==> map_wf(out) && (forall|
            t: int,
        | 0 <= t < out.len() ==> project_wf((#[trigger] out[t]).1)),
    decreases s.len() - i,
{
    match spec_parse_project_entry(s, i) {
        None => {},
        Some((k, m, j)) => {
            lemma_parse_project_wf(s, i + 1 + dec_of(k as int).len() + "\":"@.len());
            if 0 <= i < s.len() && s[i] == '"' {
                match spec_parse_key(s, i + 1) {
                    Some((n, j1)) => {
                        lemma_parse_project_wf(s, j1 + "\":"@.len());
                    },
                    None => {},
                }
            }
            if spec_get(acc, k) is None && i < j && j <= s.len() {
                lemma_get_none_absent(acc, k);
                let acc2 = acc.push((k, m));
                assert(map_wf(acc2)) by {
                    assert(forall|t: int| 0 <= t < acc.len() ==> acc2[t] == acc[t]);
                    assert(acc2[acc.len() as int].0 == k);
                }
                assert(forall|t: int| 0 <= t < acc2.len() ==> project_wf((#[trigger] acc2[t]).1))
                    by {
                    assert(forall|t: int| 0 <= t < acc.len() ==> acc2[t] == acc[t]);
                }
                if j < s.len() && s[j] == ',' {
                    lemma_parse_projects_entries_wf(s, j + 1, acc2);
                }
            }
        },
    }
}

/// A parsed data document is well-formed.
pub proof fn lemma_parse_data_wf(s: Seq<char>)
    ensures
        spec_parse_data(s) matches Some(m) ==> data_wf(m),
{
    let i = "{\"projects\":"@.len() as int;
    if has_at(s, 0, "{\"projects\":"@) {
        if 0 <= i < s.len() && s[i] == '{' && !(i + 1 < s.len() && s[i + 1] == '}') {
            lemma_parse_projects_entries_wf(s, i + 1, Seq::empty());
        }
    }
}

/// Parsing inverts rendering, for one project entry.
proof fn lemma_parse_project_entry_inverts(s: Seq<char>, i: int, k: MapId, m: ProjectModel)
    requires
        has_at(s, i, render_project_entry(k, m)),
        k >= 1,
        project_wf(m),
        project_invertible(m),
    ensures
        spec_parse_project_entry(s, i) == Some((k, m, i + render_project_entry(k, m).len())),
{
    let q = seq!['"'];
    let d = dec_of(k as int);
    let qc = "\":"@;
    let tk = render_project(m);
    reveal_strlit("\":");
    lemma_has_at_split(s, i, q + d + qc, tk);
    lemma_has_at_split(s, i, q + d, qc);
    lemma_has_at_split(s, i, q, d);
    assert(s[i] == q[0]);
    lemma_dec_of_digits(k as int);
    let jd = i + 1 + d.len();
    assert(s[jd] == qc[0]) by {
        assert(s[i + 1 + d.len() + 0] == qc[0]);
    }
    assert(!is_digit(s[jd]));
    lemma_parse_key_inverts(s, i + 1, k as int);
    lemma_parse_project_inverts(s, jd + qc.len(), m);
    assert(spec_parse_project_entry(s, i) == Some((k, m, jd + qc.len() + tk.len())));
}

/// Parsing inverts rendering, for the entries of a non-empty projects
/// object.
proof fn lemma_parse_projects_entries_inverts(
    s: Seq<char>,
    i: int,
    ps: Seq<(MapId, ProjectModel)>,
    acc: Seq<(MapId, ProjectModel)>,
)
    requires
        ps.len() > 0,
        has_at(s, i, render_projects_inner(ps) + seq!['}']),
        map_wf(acc + ps),
        forall|t: int| 0 <= t < ps.len() ==> project_wf((#[trigger] ps[t]).1),
        forall|t: int| 0 <= t < ps.len() ==> project_invertible((#[trigger] ps[t]).1),
    ensures
        spec_parse_projects_entries(s, i, acc) == Some(
            (acc + ps, i + render_projects_inner(ps).len() + 1),
        ),
    decreases ps.len(),
{
    let k = ps[0].0;
    let m = ps[0].1;
    let e = render_project_entry(k, m);
    assert((acc + ps)[acc.len() as int] == ps[0]);
    assert(ps[0].1 == m);
    assert(k >= 1 && project_wf(m) && project_invertible(m));
    assert(map_wf(ps)) by {
        assert(forall|t: int| 0 <= t < ps.len() ==> (acc + ps)[acc.len() + t] == ps[t]);
    }
    assert(spec_get(acc, k) is None) by {
        if spec_get(acc, k) is Some {
            lemma_index_of_bounds(acc, k);
            let w = spec_index_of(acc, k);
            assert((acc + ps)[w].0 == (acc + ps)[acc.len() as int].0);
        }
    }
    if ps.len() == 1 {
        assert(render_projects_inner(ps) == e);
        lemma_has_at_split(s, i, e, seq!['}']);
        lemma_parse_project_entry_inverts(s, i, k, m);
        let j = i + e.len();
        assert(s[j] == '}') by {
            assert(s[i + e.len() + 0] == (seq!['}'])[0]);
        }
        assert(s[j] != ',');
        assert(i < j) by {
            reveal_strlit("\":");
            lemma_dec_of_digits(k as int);
        }
        assert(acc.push((k, m)) =~= acc + ps);
        assert(spec_parse_projects_entries(s, i, acc) == Some((acc + ps, j + 1)));
    } else {
        let rest = ps.drop_first();
        assert(render_projects_inner(ps) == e + seq![','] + render_projects_inner(rest));
        assert((e + seq![','] + render_projects_inner(rest)) + seq!['}'] =~= (e + seq![',']) + (
        render_projects_inner(rest) + seq!['}']));
        lemma_has_at_split(s, i, e + seq![','], render_projects_inner(rest) + seq!['}']);
        lemma_has_at_split(s, i, e, seq![',']);
        lemma_parse_project_entry_inverts(s, i, k, m);
        let j = i + e.len();
        assert(s[j] == ',') by {
            assert(s[i + e.len() + 0] == (seq![','])[0]);
        }
        assert(i < j) by {
            reveal_strlit("\":");
            lemma_dec_of_digits(k as int);
        }
        let acc2 = acc.push((k, m));
        assert(acc2 + rest =~= acc + ps);
        assert(forall|t: int| 0 <= t < rest.len() ==> rest[t] == ps[t + 1]);
        lemma_parse_projects_entries_inverts(s, j + 1, rest, acc2);
        assert(spec_parse_projects_entries(s, i, acc) == Some(
            (acc + ps, j + 1 + render_projects_inner(rest).len() + 1),
        ));
    }
}

/// Parsing inverts rendering, for the projects object.
proof fn lemma_parse_projects_inverts(s: Seq<char>, i: int, ps: Seq<(MapId, ProjectModel)>)
    requires
        has_at(s, i, render_projects(ps)),
        map_wf(ps),
        forall|t: int| 0 <= t < ps.len() ==> project_wf((#[trigger] ps[t]).1),
        forall|t: int| 0 <= t < ps.len() ==> project_invertible((#[trigger] ps[t]).1),
    ensures
        spec_parse_projects(s, i) == Some((ps, i + render_projects(ps).len())),
{
    let inner = render_projects_inner(ps);
    assert(render_projects(ps) =~= (seq!['{'] + inner) + seq!['}']);
    lemma_has_at_split(s, i, seq!['{'] + inner, seq!['}']);
    lemma_has_at_split(s, i, seq!['{'], inner);
    assert(s[i + 0] == (seq!['{'])[0]);
    assert(s[i] == '{');
    assert(s[i + 1 + inner.len() + 0] == (seq!['}'])[0]);
    if ps.len() == 0 {
        assert(inner =~= Seq::<char>::empty());
        assert(s[i + 1] == '}');
        assert(Seq::<(MapId, ProjectModel)>::empty() =~= ps);
    } else {
        let e = render_project_entry(ps[0].0, ps[0].1);
        assert(inner[0] == e[0]) by {
            if ps.len() > 1 {
                assert(inner == e + seq![','] + render_projects_inner(ps.drop_first()));
                assert(((e + seq![',']) + render_projects_inner(ps.drop_first()))[0] == (e
                    + seq![','])[0]);
            }
        }
        assert(e[0] == '"') by {
            assert(e == ((seq!['"'] + dec_of(ps[0].0 as int)) + "\":"@) + render_project(
                ps[0].1,
            ));
        }
        assert(s[i + 1] == inner[0]) by {
            assert(inner.len() > 0);
            assert(s[i + 1 + 0] == inner[0]);
        }
        assert(s[i + 1] != '}');
        lemma_has_at_join(s, i + 1, inner, seq!['}']);
        assert(Seq::<(MapId, ProjectModel)>::empty() + ps =~= ps);
        lemma_parse_projects_entries_inverts(s, i + 1, ps, Seq::empty());
    }
}

/// Law: parsing inverts rendering for the whole data document. For any
/// well-formed tree whose timestamp renderings the calendar library reads
/// back — which serializing the tree establishes — parsing the rendered
/// document yields exactly the tree.
pub proof fn lemma_data_round_trip(m: DataModel)
    requires
        data_wf(m),
    ensures
        data_invertible(m) ==> spec_parse_data(render_data(m)) == Some(m),
{
    if data_invertible(m) {
        let s = render_data(m);
        let p1 = "{\"projects\":"@;
        let p2 = render_projects(m.projects);
        let p3 = "}"@;
        reveal_strlit("}");
        assert(has_at(s, 0, s));
        assert(s =~= (p1 + p2) + p3);
        lemma_has_at_split(s, 0, p1 + p2, p3);
        lemma_has_at_split(s, 0, p1, p2);
        lemma_parse_projects_inverts(s, p1.len() as int, m.projects);
        let j = p1.len() + p2.len();
        assert(spec_parse_data(s) == Some((DataModel { projects: m.projects })));
        assert((DataModel { projects: m.projects }) == m);
    }
}

impl Data {
    /// The JSON document denoting this tree, in the one canonical spelling
    /// that [`Data::from_json`] accepts.
    pub fn to_json(&self) -> (r: String)
        requires
            data_wf(self@),
        ensures
            r@ == render_data(self@),
            data_invertible(self@),
    {
        let mut out: Vec<char> = Vec::new();
        append_str(&mut out, "{\"projects\":");
        self.write_projects_json(&mut out);
        append_str(&mut out, "}");
        proof {
            assert(out@ =~= render_data(self@));
        }
        string_from_chars(out)
    }

    /// Append the JSON rendering of the projects object.
    #[verifier::rlimit(100)]
    fn write_projects_json(&self, out: &mut Vec<char>)
        requires
            data_wf(self@),
        ensures
            final(out)@ == old(out)@ + render_projects(self@.projects),
            data_invertible(self@),
    {
        out.push('{');
        let n = self.projects.len();
        let mut idx: usize = 0;
        proof {
            assert(self@.projects.skip(0) =~= self@.projects);
        }
        while idx < n
            invariant
                idx <= n,
                n == self@.projects.len(),
                data_wf(self@),
                forall|t: int|
                    0 <= t < idx ==> project_invertible((#[trigger] self@.projects[t]).1),
                out@ + render_projects_inner(self@.projects.skip(idx as int)) == old(out)@
                    + seq!['{'] + render_projects_inner(self@.projects),
            decreases n - idx,
        {
            let ghost suffix = self@.projects.skip(idx as int);
            proof {
                assert(suffix[0] == self@.projects[idx as int]);
                assert(suffix.drop_first() =~= self@.projects.skip(idx as int + 1));
            }
            let entry = self.projects.entry_at(idx);
            let k = entry.0;
            proof {
                assert((k, entry.1@) == self@.projects[idx as int]);
            }
            let ghost out0 = out@;
            out.push('"');
            append_key(out, k);
            append_str(out, "\":");
            entry.1.write_json(out);
            proof {
                assert(out@ =~= out0 + render_project_entry(k, entry.1@));
            }
            if idx + 1 < n {
                out.push(',');
                proof {
                    assert(render_projects_inner(suffix) == render_project_entry(
                        suffix[0].0,
                        suffix[0].1,
                    ) + seq![','] + render_projects_inner(suffix.drop_first()));
                    assert(out@ + render_projects_inner(self@.projects.skip(idx as int + 1)) =~= old(
                        out,
                    )@ + seq!['{'] + render_projects_inner(self@.projects));
                }
            } else {
                proof {
                    assert(render_projects_inner(suffix) == render_project_entry(
                        suffix[0].0,
                        suffix[0].1,
                    ));
                    assert(self@.projects.skip(idx as int + 1) =~= Seq::<
                        (MapId, ProjectModel),
                    >::empty());
                    assert(out@ + render_projects_inner(self@.projects.skip(idx as int + 1)) =~= old(
                        out,
                    )@ + seq!['{'] + render_projects_inner(self@.projects));
                }
            }
            idx += 1;
        }
        out.push('}');
        proof {
            assert(self@.projects.skip(n as int) =~= Seq::<(MapId, ProjectModel)>::empty());
            assert(out@ =~= old(out)@ + render_projects(self@.projects));
        }
    }


    /// Whether this tree is well-formed; true for every tree built through
    /// the library's own operations.
    pub fn is_wf(&self) -> (r: bool)
        ensures
            r == data_wf(self@),
    {
        proof {
            crate::helper::lemma_map_entries_max(self.projects@, project_view());
        }
        if !self.projects.keys_wf() {
            return false;
        }
        let n = self.projects.len();
        let mut i: usize = 0;
        while i < n
            invariant
                i <= n,
                n == self@.projects.len(),
                map_wf(self@.projects),
                forall|t: int| 0 <= t < i ==> project_wf((#[trigger] self@.projects[t]).1),
            decreases n - i,
        {
            let entry = self.projects.entry_at(i);
            if !entry.1.is_wf() {
                proof {
                    assert(self@.projects[i as int] == (entry.0, entry.1@));
                }
                return false;
            }
            i += 1;
        }
        true
    }

    /// The JSON document denoting this tree, after checking
    /// well-formedness: the form of `to_json` for callers outside the
    /// proof's reach.
    pub fn to_json_checked(&self) -> (r: Result<String, Error>)
        ensures
            match r {
                Ok(s) => data_wf(self@) && s@ == render_data(self@) && data_invertible(self@),
                Err(e) => !data_wf(self@) && e is Serde,
            },
    {
        if self.is_wf() {
            Ok(self.to_json())
        } else {
            Err(Error::Serde("the tree is not well-formed".to_owned()))
        }
    }

    /// Rebuild a tree from its JSON document. Only the canonical form that
    /// [`Data::to_json`] emits is accepted: the renderer's field order, no
    /// insignificant whitespace, quote and backslash as the only string
    /// escapes — though keys may come in any order and timestamps in any
    /// RFC 3339 spelling. Everything else — malformed JSON, a missing,
    /// reordered or whitespace-padded field, an unrecognized tag, a
    /// duplicate or out-of-range key, an inconsistent completion time — is
    /// a decoding failure, never a partial or default-filled tree.
    pub fn from_json(s: &str) -> (r: Result<Data, Error>)
        ensures
            match r {
                Ok(d) => spec_parse_data(s@) == Some(d@) && data_wf(d@),
                Err(e) => spec_parse_data(s@) is None && e is Serde,
            },
    {
        proof {
            lemma_parse_data_wf(s@);
        }
        let v = chars_of(s);
        let i1 = match expect_lit(&v, 0, "{\"projects\":") {
            Some(j) => j,
            None => {
                return Err(Error::Serde("expected a document of projects".to_owned()));
            },
        };
        let (projects, i2) = match Data::parse_projects_at(&v, i1) {
            Some(x) => x,
            None => {
                return Err(Error::Serde("malformed projects object".to_owned()));
            },
        };
        let i3 = match expect_lit(&v, i2, "}") {
            Some(j) => j,
            None => {
                return Err(Error::Serde("expected the document to close".to_owned()));
            },
        };
        proof {
            reveal_strlit("}");
        }
        if i3 != v.len() {
            return Err(Error::Serde("content after the document".to_owned()));
        }
        Ok(Data { projects })
    }

    /// Parse the projects object at position `i`.
    fn parse_projects_at(v: &Vec<char>, i: usize) -> (r: Option<
        (AutoIncrementalMap<Project>, usize),
    >)
        ensures
            match r {
                Some((map, j)) => spec_parse_projects(v@, i as int) == Some(
                    (map_entries(map@, project_view()), j as int),
                ),
                None => spec_parse_projects(v@, i as int) is None,
            },
    {
        if i >= v.len() || v[i] != '{' {
            return None;
        }
        if i + 1 < v.len() && v[i + 1] == '}' {
            let map: AutoIncrementalMap<Project> = AutoIncrementalMap::default();
            proof {
                assert(map_entries(map@, project_view()) =~= Seq::<(MapId, ProjectModel)>::empty());
            }
            return Some((map, i + 2));
        }
        let mut acc: AutoIncrementalMap<Project> = AutoIncrementalMap::default();
        let mut cur: usize = i + 1;
        proof {
            assert(map_entries(acc@, project_view()) =~= Seq::<(MapId, ProjectModel)>::empty());
        }
        while cur < v.len()
            invariant
                i as int + 1 <= cur as int,
                i < v@.len(),
                v@[i as int] == '{',
                !(i as int + 1 < v@.len() && v@[i as int + 1] == '}'),
                spec_parse_projects_entries(v@, i as int + 1, Seq::empty())
                    == spec_parse_projects_entries(
                    v@,
                    cur as int,
                    map_entries(acc@, project_view()),
                ),
            decreases v.len() - cur,
        {
            if v[cur] != '"' {
                return None;
            }
            let (k, j1) = match parse_key_at(v, cur + 1) {
                Some(x) => x,
                None => {
                    return None;
                },
            };
            let j2 = match expect_lit(v, j1, "\":") {
                Some(x) => x,
                None => {
                    return None;
                },
            };
            let (project, j3) = match Project::parse_json_at(v, j2) {
                Some(x) => x,
                None => {
                    return None;
                },
            };
            proof {
                lemma_map_entries_get(acc@, k, project_view());
            }
            match acc.get(k) {
                Some(_) => {
                    return None;
                },
                None => {},
            }
            if !(cur < j3 && j3 <= v.len()) {
                return None;
            }
            let ghost acc0 = acc@;
            acc.push_entry(k, project);
            proof {
                assert(map_entries(acc@, project_view()) =~= map_entries(
                    acc0,
                    project_view(),
                ).push((k, project@)));
            }
            if j3 < v.len() && v[j3] == ',' {
                cur = j3 + 1;
            } else if j3 < v.len() && v[j3] == '}' {
                return Some((acc, j3 + 1));
            } else {
                return None;
            }
        }
        None
    }
}



} // verus!
