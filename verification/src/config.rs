use crate::error::Error;
use crate::jsontext::{
    append_json_string, append_str, chars_of, expect_lit, has_at, lemma_has_at_split,
    lemma_parse_string_inverts, parse_string_at, render_string, spec_parse_string,
    string_from_chars,
};
use vstd::prelude::*;
use vstd::string::StringExecFns;

verus! {

/// Model of a [`DataSource`]: which backend, and its address, as plain
/// characters.
pub enum DataSourceModel {
    File(Seq<char>),
    Http(Seq<char>),
}

/// Where the data lives: a filesystem path, or the address of a remote
/// endpoint. It carries nothing beyond the address itself, and the set of
/// variants is closed at build time.
#[derive(Clone)]
pub enum DataSource {
    File(String),
    Http(String),
}

impl View for DataSource {
    type V = DataSourceModel;

    open spec fn view(&self) -> DataSourceModel {
        match self {
            DataSource::File(p) => DataSourceModel::File(p@),
            DataSource::Http(u) => DataSourceModel::Http(u@),
        }
    }
}

impl PartialEq for DataSource {
    fn eq(&self, other: &Self) -> (r: bool)
        ensures
            r == (self@ == other@),
    {
        match (self, other) {
            (DataSource::File(a), DataSource::File(b)) => *a == *b,
            (DataSource::Http(a), DataSource::Http(b)) => *a == *b,
            _ => false,
        }
    }
}

impl vstd::std_specs::cmp::PartialEqSpecImpl for DataSource {
    open spec fn obeys_eq_spec() -> bool {
        true
    }

    open spec fn eq_spec(&self, other: &Self) -> bool {
        self@ == other@
    }
}

/// Model of a [`Config`].
pub struct ConfigModel {
    pub data_source: DataSourceModel,
}

/// The session configuration: where data is saved and loaded. It is itself
/// persisted, at a fixed place under the platform's configuration
/// directory, so that different clients share one configuration.
pub struct Config {
    pub data_source: DataSource,
}

impl View for Config {
    type V = ConfigModel;

    open spec fn view(&self) -> ConfigModel {
        ConfigModel { data_source: self.data_source@ }
    }
}

/// Relies on `directories::ProjectDirs`: the platform's configuration
/// directory for this library's identifiers, when the platform reports one.
/// The value depends on the machine and environment, so nothing is promised
/// of it.
#[verifier::external_body]
fn user_config_dir() -> Option<String> {
    match directories::ProjectDirs::from("com", "milston", "Milston") {
        Some(d) => d.config_dir().to_str().map(|s| s.to_owned()),
        None => None,
    }
}

/// Relies on `directories::ProjectDirs`: the platform's local data
/// directory for this library's identifiers, when the platform reports one.
/// The value depends on the machine and environment, so nothing is promised
/// of it.
#[verifier::external_body]
fn user_data_dir() -> Option<String> {
    match directories::ProjectDirs::from("com", "milston", "Milston") {
        Some(d) => d.data_local_dir().to_str().map(|s| s.to_owned()),
        None => None,
    }
}

/// Whether a destination is where the configuration document lives: the
/// fixed file name `config.json` under some directory.
pub open spec fn is_config_document_source(m: DataSourceModel) -> bool {
    match m {
        DataSourceModel::File(p) => exists|d: Seq<char>| p == #[trigger] (d + "/config.json"@),
        DataSourceModel::Http(_) => false,
    }
}

/// Whether a destination is the default place of the data document: the
/// fixed file name `data.json` under some directory, or bare as a relative
/// fallback.
pub open spec fn is_default_data_source(m: DataSourceModel) -> bool {
    match m {
        DataSourceModel::File(p) => p == "data.json"@ || exists|d: Seq<char>| p == #[trigger] (d
            + "/data.json"@),
        DataSourceModel::Http(_) => false,
    }
}

/// The configuration document's place inside a directory: the fixed file
/// name under it.
fn config_file_in(dir: String) -> (r: DataSource)
    ensures
        r@ == DataSourceModel::File(dir@ + "/config.json"@),
{
    DataSource::File(dir.concat("/config.json"))
}

/// The data document's place inside a directory: the fixed file name under
/// it.
fn data_file_in(dir: String) -> (r: DataSource)
    ensures
        r@ == DataSourceModel::File(dir@ + "/data.json"@),
{
    DataSource::File(dir.concat("/data.json"))
}

impl Config {
    /// Where the configuration document itself lives: the fixed file name
    /// `config.json` under the platform's configuration directory. Absent
    /// when the platform reports no such directory.
    pub fn get_data_source() -> (r: Option<DataSource>)
        ensures
            r matches Some(ds) ==> is_config_document_source(ds@),
    {
        match user_config_dir() {
            Some(d) => {
                let ghost dir = d@;
                let ds = config_file_in(d);
                proof {
                    assert(ds@ == DataSourceModel::File(dir + "/config.json"@));
                }
                Some(ds)
            },
            None => None,
        }
    }
}

impl Default for Config {
    /// Save to the fixed file name `data.json` under the platform's data
    /// directory; fall back to the bare relative name when the platform
    /// reports no such directory.
    fn default() -> (r: Config)
        ensures
            is_default_data_source(r@.data_source),
    {
        match user_data_dir() {
            Some(d) => {
                let ghost dir = d@;
                let ds = data_file_in(d);
                proof {
                    assert(ds@ == DataSourceModel::File(dir + "/data.json"@));
                }
                Config { data_source: ds }
            },
            None => Config { data_source: DataSource::File("data.json".to_owned()) },
        }
    }
}


/// The JSON rendering of a destination descriptor: an object with one
/// field, tagged by the variant.
pub open spec fn render_data_source(m: DataSourceModel) -> Seq<char> {
    match m {
        DataSourceModel::File(p) => "{\"File\":"@ + render_string(p) + "}"@,
        DataSourceModel::Http(u) => "{\"Http\":"@ + render_string(u) + "}"@,
    }
}

/// The JSON rendering of the whole configuration document.
pub open spec fn render_config(m: ConfigModel) -> Seq<char> {
    "{\"data_source\":"@ + render_data_source(m.data_source) + "}"@
}

/// The destination descriptor at position `i`.
pub open spec fn spec_parse_data_source(s: Seq<char>, i: int) -> Option<(DataSourceModel, int)> {
    if has_at(s, i, "{\"File\":"@) {
        match spec_parse_string(s, i + "{\"File\":"@.len()) {
            Some((p, j)) => if has_at(s, j, "}"@) {
                Some((DataSourceModel::File(p), j + 1))
            } else {
                None
            },
            None => None,
        }
    } else if has_at(s, i, "{\"Http\":"@) {
        match spec_parse_string(s, i + "{\"Http\":"@.len()) {
            Some((u, j)) => if has_at(s, j, "}"@) {
                Some((DataSourceModel::Http(u), j + 1))
            } else {
                None
            },
            None => None,
        }
    } else {
        None
    }
}

/// The whole configuration document, with nothing after it.
pub open spec fn spec_parse_config(s: Seq<char>) -> Option<ConfigModel> {
    if !has_at(s, 0, "{\"data_source\":"@) {
        None
    } else {
        match spec_parse_data_source(s, "{\"data_source\":"@.len() as int) {
            Some((ds, j)) => if has_at(s, j, "}"@) && j + 1 == s.len() {
                Some(ConfigModel { data_source: ds })
            } else {
                None
            },
            None => None,
        }
    }
}

/// Parsing inverts rendering, for destination descriptors.
proof fn lemma_parse_data_source_inverts(s: Seq<char>, i: int, m: DataSourceModel)
    requires
        has_at(s, i, render_data_source(m)),
    ensures
        spec_parse_data_source(s, i) == Some((m, i + render_data_source(m).len())),
{
    reveal_strlit("{\"File\":");
    reveal_strlit("{\"Http\":");
    reveal_strlit("}");
    match m {
        DataSourceModel::File(p) => {
            let p1 = "{\"File\":"@;
            let p2 = render_string(p);
            let p3 = "}"@;
            lemma_has_at_split(s, i, p1 + p2, p3);
            lemma_has_at_split(s, i, p1, p2);
            lemma_parse_string_inverts(s, i + p1.len(), p);
            assert(s[i + p1.len() + p2.len() + 0] == p3[0]);
            assert(has_at(s, i + p1.len() + p2.len(), "}"@));
        },
        DataSourceModel::Http(u) => {
            let p1 = "{\"Http\":"@;
            let p2 = render_string(u);
            let p3 = "}"@;
            lemma_has_at_split(s, i, p1 + p2, p3);
            lemma_has_at_split(s, i, p1, p2);
            assert(!has_at(s, i, "{\"File\":"@)) by {
                assert(s[i + 2] == "{\"Http\":"@[2]);
                if has_at(s, i, "{\"File\":"@) {
                    assert(s[i + 2] == "{\"File\":"@[2]);
                }
            }
            lemma_parse_string_inverts(s, i + p1.len(), u);
            assert(s[i + p1.len() + p2.len() + 0] == p3[0]);
            assert(has_at(s, i + p1.len() + p2.len(), "}"@));
        },
    }
}

/// Law: parsing inverts rendering for the configuration document, for
/// every configuration.
pub proof fn lemma_config_round_trip(m: ConfigModel)
    ensures
        spec_parse_config(render_config(m)) == Some(m),
{
    let s = render_config(m);
    let p1 = "{\"data_source\":"@;
    let p2 = render_data_source(m.data_source);
    let p3 = "}"@;
    reveal_strlit("}");
    assert(has_at(s, 0, s));
    assert(s =~= (p1 + p2) + p3);
    lemma_has_at_split(s, 0, p1 + p2, p3);
    lemma_has_at_split(s, 0, p1, p2);
    lemma_parse_data_source_inverts(s, p1.len() as int, m.data_source);
    assert(s[(p1.len() + p2.len()) as int] == p3[0]) by {
        assert(s[0int + p1.len() + p2.len() + 0] == p3[0]);
    }
    assert(has_at(s, (p1.len() + p2.len()) as int, "}"@));
    assert((ConfigModel { data_source: m.data_source }) == m);
}

impl Config {
    /// The JSON document denoting this configuration, in the one canonical
    /// spelling that [`Config::from_json`] accepts.
    pub fn to_json(&self) -> (r: String)
        ensures
            r@ == render_config(self@),
    {
        let mut out: Vec<char> = Vec::new();
        append_str(&mut out, "{\"data_source\":");
        match &self.data_source {
            DataSource::File(p) => {
                append_str(&mut out, "{\"File\":");
                append_json_string(&mut out, p.as_str());
                append_str(&mut out, "}");
            },
            DataSource::Http(u) => {
                append_str(&mut out, "{\"Http\":");
                append_json_string(&mut out, u.as_str());
                append_str(&mut out, "}");
            },
        }
        append_str(&mut out, "}");
        proof {
            assert(out@ =~= render_config(self@));
        }
        string_from_chars(out)
    }

    /// Rebuild a configuration from its JSON document. Only the canonical
    /// form that [`Config::to_json`] emits is accepted — the renderer's
    /// field order, no insignificant whitespace, the renderer's two string
    /// escapes; everything else is a decoding failure.
    pub fn from_json(s: &str) -> (r: Result<Config, Error>)
        ensures
            match r {
                Ok(c) => spec_parse_config(s@) == Some(c@),
                Err(e) => spec_parse_config(s@) is None && e is Serde,
            },
    {
        let v = chars_of(s);
        let i1 = match expect_lit(&v, 0, "{\"data_source\":") {
            Some(j) => j,
            None => {
                return Err(Error::Serde("expected a configuration document".to_owned()));
            },
        };
        let (ds, i2) = match Config::parse_data_source_at(&v, i1) {
            Some(x) => x,
            None => {
                return Err(Error::Serde("malformed data source".to_owned()));
            },
        };
        let i3 = match expect_lit(&v, i2, "}") {
            Some(j) => j,
            None => {
                return Err(Error::Serde("expected the document to close".to_owned()));
            },
        };
        proof {
            reveal_strlit("}");
        }
        if i3 != v.len() {
            return Err(Error::Serde("content after the document".to_owned()));
        }
        Ok(Config { data_source: ds })
    }

    /// Parse the destination descriptor at position `i`.
    fn parse_data_source_at(v: &Vec<char>, i: usize) -> (r: Option<(DataSource, usize)>)
        ensures
            match r {
                Some((ds, j)) => spec_parse_data_source(v@, i as int) == Some((ds@, j as int)),
                None => spec_parse_data_source(v@, i as int) is None,
            },
    {
        match expect_lit(v, i, "{\"File\":") {
            Some(j1) => {
                let (p, j2) = match parse_string_at(v, j1) {
                    Some(x) => x,
                    None => {
                        return None;
                    },
                };
                let j3 = match expect_lit(v, j2, "}") {
                    Some(x) => x,
                    None => {
                        return None;
                    },
                };
                proof {
                    reveal_strlit("}");
                }
                return Some((DataSource::File(p), j3));
            },
            None => {},
        }
        match expect_lit(v, i, "{\"Http\":") {
            Some(j1) => {
                let (u, j2) = match parse_string_at(v, j1) {
                    Some(x) => x,
                    None => {
                        return None;
                    },
                };
                let j3 = match expect_lit(v, j2, "}") {
                    Some(x) => x,
                    None => {
                        return None;
                    },
                };
                proof {
                    reveal_strlit("}");
                }
                return Some((DataSource::Http(u), j3));
            },
            None => {},
        }
        None
    }
}


} // verus!
