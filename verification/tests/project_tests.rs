use milston::data::{Project, Task, TaskStatus};

#[test]
fn create_new_project() {
    let project = Project::new("Test Project");
    assert_eq!(project.get_title(), "Test Project");
    assert!(project.is_empty());
    assert!(project.is_completed());
}

#[test]
fn add_new_task() {
    let mut project = Project::new("Test Project");
    let task = Task::new("Test Task", "Task for testing");
    let task_id = project.add_task(task);

    assert!(!project.is_empty());
    assert!(!project.is_completed());
    assert_eq!(task_id, 1);
}

#[test]
fn change_task_status() {
    let mut project = Project::new("Test Project");
    let task = Task::new("Test Task", "Task for testing");
    let task_id = project.add_task(task);
    assert!(!project.is_completed());

    let task = project.get_task_mut(task_id).unwrap();
    task.set_status(TaskStatus::Completed);
    assert!(project.is_completed());
}

#[test]
fn remove_task() {
    let mut project = Project::new("Test Project");
    let task = Task::new("Test Task", "Task for testing");
    let task_id = project.add_task(task);

    assert_eq!(project.get_tasks_count(), 1);
    project.remove_task(task_id);
    assert_eq!(project.get_tasks_count(), 0);
    assert!(project.is_empty());
}

#[test]
fn clear_tasks() {
    let mut project = Project::new("Test Project");
    let task = Task::new("Test Task", "Task for testing");
    project.add_task(task);

    assert_eq!(project.get_tasks_count(), 1);
    project.clear_tasks();
    assert_eq!(project.get_tasks_count(), 0);
    assert!(project.is_empty());
}
