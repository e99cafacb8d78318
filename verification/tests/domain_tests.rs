use milston::data::{Data, Project, Task, TaskStatus};
use milston::Milston;

#[test]
fn completion_timestamp_follows_status() {
    let mut task = Task::new_at("t", "d", 500);
    assert!(task.get_completion_timestamp().is_none());

    task.set_status(TaskStatus::Completed);
    let done = task.get_completion_timestamp().unwrap();
    assert!(done >= task.get_creation_timestamp());

    task.set_status(TaskStatus::Todo);
    assert!(task.get_completion_timestamp().is_none());

    task.set_status(TaskStatus::Doing);
    assert!(task.get_completion_timestamp().is_none());

    // A clock reading earlier than the creation time is clamped up to it.
    task.set_status_at(TaskStatus::Completed, 100);
    assert_eq!(task.get_completion_timestamp(), Some(500));
}

#[test]
fn project_completion_is_the_maximum_of_its_tasks() {
    let mut project = Project::new_at("p", 0);
    assert!(project.get_completion_timestamp().is_none());

    let mut first = Task::new_at("a", "", 0);
    first.set_status_at(TaskStatus::Completed, 1000);
    project.add_task(first);
    let mut second = Task::new_at("b", "", 0);
    second.set_status_at(TaskStatus::Completed, 2000);
    project.add_task(second);
    assert_eq!(project.get_completion_timestamp(), Some(2000));

    let unfinished = Task::new_at("c", "", 0);
    let id = project.add_task(unfinished);
    assert!(project.get_completion_timestamp().is_none());

    project.remove_task(id);
    assert_eq!(project.get_completion_timestamp(), Some(2000));
}

#[test]
fn save_and_load_round_trip_through_a_document() {
    let mut milston = Milston::default();
    let mut project = Project::new("Launch");
    let task = Task::new("Write docs", "status starts as Todo");
    let task_id = project.add_task(task);
    let project_id = milston.add_project(project);

    // Save: render the tree; load: replace another tree wholesale.
    let document = milston.get_data().to_json();
    let mut other = Milston::default();
    other.set_data(Data::from_json(&document).unwrap());

    let loaded = other.get_project(project_id).unwrap();
    assert_eq!(loaded.get_title(), "Launch");
    let loaded_task = loaded.get_task(task_id).unwrap();
    assert_eq!(loaded_task.title, "Write docs");
    assert_eq!(loaded_task.get_status(), TaskStatus::Todo);
    assert!(!loaded.is_completed());

    // Complete the task, save again, reload.
    let project_mut = other.get_project_mut(project_id).unwrap();
    project_mut.get_task_mut(task_id).unwrap().set_status(TaskStatus::Completed);
    let document = other.get_data().to_json();
    let mut third = Milston::default();
    third.set_data(Data::from_json(&document).unwrap());

    let reloaded = third.get_project(project_id).unwrap();
    assert!(reloaded.is_completed());
    let task_completion = reloaded.get_task(task_id).unwrap().get_completion_timestamp();
    assert!(task_completion.is_some());
    assert_eq!(reloaded.get_completion_timestamp(), task_completion);
}

#[test]
fn milston_manages_projects_by_key() {
    let mut milston = Milston::default();
    let first = milston.add_project(Project::new("one"));
    let second = milston.add_project(Project::new("two"));
    assert_eq!(first, 1);
    assert_eq!(second, 2);
    assert_eq!(milston.get_projects().len(), 2);

    let removed = milston.remove_project(first).unwrap();
    assert_eq!(removed.get_title(), "one");
    assert!(milston.get_project(first).is_none());
    assert_eq!(milston.get_projects().len(), 1);

    milston.clear_data();
    assert_eq!(milston.get_projects().len(), 0);
}
