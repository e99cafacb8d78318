use crate::config::{is_default_data_source, Config, ConfigModel, DataSource};
use crate::data::{data_wf, project_view, Data, DataModel, ProjectId};
use crate::helper::{
    lemma_index_of_bounds, lemma_map_entries_get, lemma_map_entries_max, lemma_map_entries_remove,
    lemma_max_key_bounds, lemma_next_id_fresh, lemma_remove_keeps_wf, map_entries, map_wf,
    spec_get, spec_index_of, spec_max_key, spec_next_id, spec_remove, MapId,
};
use crate::project::{project_wf, Project, ProjectModel};
use vstd::prelude::*;

verus! {

/// Mathematical model of a [`Milston`] instance: the data tree and the
/// configuration it will be saved under.
pub struct MilstonModel {
    pub data: DataModel,
    pub config: ConfigModel,
}

/// The entry point of the library: owns the whole data tree and the
/// configuration saying where that tree is saved and loaded. The I/O itself
/// is carried out by an embedding application, which reads the tree's JSON
/// rendering from here and hands parsed trees back.
pub struct Milston {
    data: Data,
    config: Config,
}

impl View for Milston {
    type V = MilstonModel;

    closed spec fn view(&self) -> MilstonModel {
        MilstonModel { data: self.data@, config: self.config@ }
    }
}

impl Default for Milston {
    /// An empty tree, saved by default to the fixed file name `data.json`
    /// under the platform's data directory.
    fn default() -> (r: Milston)
        ensures
            r@.data.projects.len() == 0,
            data_wf(r@.data),
            is_default_data_source(r@.config.data_source),
    {
        Milston { data: Data::default(), config: Config::default() }
    }
}

impl Milston {
    /// Wrap an existing tree and configuration.
    pub fn new(data: Data, config: Config) -> (m: Milston)
        ensures
            m@.data == data@,
            m@.config == config@,
    {
        Milston { data, config }
    }

    /// Drop the whole tree; the configuration stays.
    pub fn clear_data(&mut self)
        ensures
            final(self)@.data.projects.len() == 0,
            data_wf(final(self)@.data),
            final(self)@.config == old(self)@.config,
    {
        self.data = Data::default();
    }

    /// Every project currently held, in entry order; callers must not rely
    /// on any particular order.
    pub fn get_projects(&self) -> (r: Vec<&Project>)
        ensures
            r@.len() == self@.data.projects.len(),
            forall|i: int|
                0 <= i < self@.data.projects.len() ==> (#[trigger] r@[i])@
                    == self@.data.projects[i].1,
    {
        self.data.projects.get_values()
    }

    /// The project under `id`, or absent.
    pub fn get_project(&self, id: ProjectId) -> (r: Option<&Project>)
        ensures
            match r {
                Some(p) => spec_get(self@.data.projects, id) == Some(p@),
                None => spec_get(self@.data.projects, id) is None,
            },
    {
        proof {
            lemma_map_entries_get(self.data.projects@, id, project_view());
        }
        self.data.projects.get(id)
    }

    /// A mutable borrow of the project under `id`, or absent.
    pub fn get_project_mut(&mut self, id: ProjectId) -> (r: Option<&mut Project>)
        ensures
            match spec_get(old(self)@.data.projects, id) {
                Some(v) => {
                    &&& r is Some
                    &&& (*r.unwrap())@ == v
                    &&& final(self)@.data.projects == old(self)@.data.projects.update(
                        spec_index_of(old(self)@.data.projects, id),
                        (id, (*final(r.unwrap()))@),
                    )
                    &&& final(self)@.config == old(self)@.config
                },
                None => r is None && final(self)@ == old(self)@,
            },
    {
        proof {
            lemma_map_entries_get(self.data.projects@, id, project_view());
            lemma_map_entries_remove(self.data.projects@, id, project_view());
            if spec_get(self.data.projects@, id) is Some {
                lemma_index_of_bounds(self.data.projects@, id);
                let j = spec_index_of(self.data.projects@, id);
                assert forall|x: Project|
                    #[trigger] map_entries(self.data.projects@.update(j, (id, x)), project_view())
                        =~= map_entries(self.data.projects@, project_view()).update(
                        j,
                        (id, x@),
                    ) by {
                    assert(forall|k: int|
                        0 <= k < self.data.projects@.len() && k != j ==> self.data.projects@.update(
                            j,
                            (id, x),
                        )[k] == self.data.projects@[k]);
                }
            }
        }
        self.data.projects.get_mut(id)
    }

    /// Add a project under a fresh key — one greater than the largest
    /// project key present, or `1` on an empty tree — and return that key.
    pub fn add_project(&mut self, project: Project) -> (id: ProjectId)
        requires
            spec_max_key(old(self)@.data.projects) < MapId::MAX as int,
        ensures
            id as int == spec_next_id(old(self)@.data.projects),
            final(self)@.data.projects == old(self)@.data.projects.push((id, project@)),
            final(self)@.config == old(self)@.config,
            data_wf(old(self)@.data) && project_wf(project@) ==> data_wf(final(self)@.data),
    {
        proof {
            lemma_map_entries_max(self.data.projects@, project_view());
        }
        let id = self.data.projects.add(project);
        proof {
            lemma_map_entries_max(old(self).data.projects@, project_view());
            assert(final(self)@.data.projects =~= old(self)@.data.projects.push((id, project@)));
            if data_wf(old(self)@.data) && project_wf(project@) {
                lemma_next_id_fresh(old(self)@.data.projects);
                lemma_max_key_bounds(old(self)@.data.projects);
                let out = final(self)@.data.projects;
                assert(forall|i: int|
                    0 <= i < out.len() - 1 ==> out[i] == old(self)@.data.projects[i]);
                assert(map_wf(out));
                assert(data_wf(final(self)@.data));
            }
        }
        id
    }

    /// Detach and return the project under `id`; other projects keep their
    /// keys.
    pub fn remove_project(&mut self, id: ProjectId) -> (r: Option<Project>)
        ensures
            final(self)@.data.projects == spec_remove(old(self)@.data.projects, id),
            match r {
                Some(p) => spec_get(old(self)@.data.projects, id) == Some(p@),
                None => spec_get(old(self)@.data.projects, id) is None,
            },
            final(self)@.config == old(self)@.config,
            data_wf(old(self)@.data) ==> data_wf(final(self)@.data),
    {
        let r = self.data.projects.remove(id);
        proof {
            lemma_map_entries_remove(old(self).data.projects@, id, project_view());
            lemma_map_entries_get(old(self).data.projects@, id, project_view());
            if data_wf(old(self)@.data) {
                lemma_remove_keeps_wf(old(self)@.data.projects, id);
                assert forall|i: int| 0 <= i < final(self)@.data.projects.len() implies project_wf(
                    (#[trigger] final(self)@.data.projects[i]).1,
                ) by {
                    let w = choose|j: int|
                        0 <= j < old(self)@.data.projects.len() && final(self)@.data.projects[i]
                            == old(self)@.data.projects[j];
                }
            }
        }
        r
    }

    /// Point subsequent saves and loads at another destination.
    pub fn set_data_source(&mut self, source: DataSource)
        ensures
            final(self)@.config.data_source == source@,
            final(self)@.data == old(self)@.data,
    {
        self.config.data_source = source;
    }

    /// The data tree, for an embedding application to render and save.
    pub fn get_data(&self) -> (r: &Data)
        ensures
            r@ == self@.data,
    {
        &self.data
    }

    /// Replace the data tree wholesale, as a load does.
    pub fn set_data(&mut self, data: Data)
        ensures
            final(self)@.data == data@,
            final(self)@.config == old(self)@.config,
    {
        self.data = data;
    }

    /// The configuration, for an embedding application to render and save.
    pub fn get_config(&self) -> (r: &Config)
        ensures
            r@ == self@.config,
    {
        &self.config
    }

    /// Replace the configuration wholesale, as a configuration load does.
    pub fn set_config(&mut self, config: Config)
        ensures
            final(self)@.config == config@,
            final(self)@.data == old(self)@.data,
    {
        self.config = config;
    }
}

} // verus!
