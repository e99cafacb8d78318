use milston::config::{Config, DataSource};
use milston::data::{Project, Task};
use milston::Milston;

#[test]
fn create_simple_milston() {
    let mut milston = Milston::default();
    let mut project = Project::new("Test Project");
    let task = Task::new("Test Task", "Test Description");

    let task_id = project.add_task(task);
    let project_id = milston.add_project(project);

    let project = milston.get_project(project_id).unwrap();
    assert_eq!(project.get_title(), "Test Project");

    let task = project.get_task(task_id).unwrap();
    assert_eq!(task.title, "Test Task");
}

#[test]
fn change_project_name() {
    let mut milston = Milston::default();
    let project = Project::new("Test Project");
    let project_id = milston.add_project(project);

    let project_mut = milston.get_project_mut(project_id).unwrap();
    project_mut.set_title("Modified Project");

    let project = milston.get_project(project_id).unwrap();
    assert_eq!(project.get_title(), "Modified Project");
}

#[test]
fn default_destination_is_a_file() {
    let milston = Milston::default();
    match &milston.get_config().data_source {
        DataSource::File(path) => assert!(path.ends_with("data.json")),
        DataSource::Http(_) => panic!("the default destination is a local file"),
    }
    if let Some(source) = Config::get_data_source() {
        match source {
            DataSource::File(path) => assert!(path.ends_with("config.json")),
            DataSource::Http(_) => panic!("the configuration lives in a local file"),
        }
    }
}
