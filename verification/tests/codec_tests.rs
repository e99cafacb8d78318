use milston::config::{Config, DataSource};
use milston::data::{Data, Project, Task, TaskStatus};
use milston::Error;

fn sample_data() -> Data {
    let mut data = Data::default();
    let mut project = Project::new_at("Launch", 0);
    let mut task = Task::new_at("Write docs", "Document the library", 0);
    task.set_status_at(TaskStatus::Completed, 1000);
    project.add_task(task);
    data.projects.add(project);
    data
}

#[test]
fn data_renders_exact_document() {
    let data = sample_data();
    let expected = "{\"projects\":{\"1\":{\"title\":\"Launch\",\"tasks\":{\"1\":{\"title\":\"Write docs\",\"description\":\"Document the library\",\"status\":\"Completed\",\"creation_timestamp\":\"1970-01-01T00:00:00.000Z\",\"completion_timestamp\":\"1970-01-01T00:00:01.000Z\"}},\"creation_timestamp\":\"1970-01-01T00:00:00.000Z\"}}}";
    assert_eq!(data.to_json(), expected);
}

#[test]
fn data_round_trips() {
    let data = sample_data();
    let json = data.to_json();
    let loaded = Data::from_json(&json).unwrap();
    assert_eq!(loaded.projects.len(), 1);
    let project = loaded.projects.get(1).unwrap();
    assert_eq!(project.get_title(), "Launch");
    assert_eq!(project.get_creation_timestamp(), 0);
    let task = project.get_task(1).unwrap();
    assert_eq!(task.title, "Write docs");
    assert_eq!(task.description, "Document the library");
    assert_eq!(task.get_status(), TaskStatus::Completed);
    assert_eq!(task.get_creation_timestamp(), 0);
    assert_eq!(task.get_completion_timestamp(), Some(1000));
}

#[test]
fn escaped_titles_round_trip() {
    let mut data = Data::default();
    let mut project = Project::new_at("a\"b\\c", 5);
    let task = Task::new_at("line\"quote", "back\\slash", 5);
    project.add_task(task);
    data.projects.add(project);
    let json = data.to_json();
    let loaded = Data::from_json(&json).unwrap();
    let project = loaded.projects.get(1).unwrap();
    assert_eq!(project.get_title(), "a\"b\\c");
    let task = project.get_task(1).unwrap();
    assert_eq!(task.title, "line\"quote");
    assert_eq!(task.description, "back\\slash");
    assert_eq!(project.get_tasks_count(), 1);
}

#[test]
fn empty_data_round_trips() {
    let data = Data::default();
    let json = data.to_json();
    assert_eq!(json, "{\"projects\":{}}");
    let loaded = Data::from_json(&json).unwrap();
    assert_eq!(loaded.projects.len(), 0);
}

#[test]
fn invalid_json_is_a_decoding_error() {
    for bad in [
        "",
        "not json",
        "{\"projects\":",
        "{\"projects\":{}}trailing",
        "{\"projects\":[]}",
        "{\"wrong\":{}}",
    ] {
        match Data::from_json(bad) {
            Err(Error::Serde(_)) => {}
            _ => panic!("expected a decoding error for {:?}", bad),
        }
    }
}

#[test]
fn missing_field_is_a_decoding_error() {
    // The task object lacks its description field.
    let bad = "{\"projects\":{\"1\":{\"title\":\"X\",\"tasks\":{\"1\":{\"title\":\"t\",\"status\":\"Todo\",\"creation_timestamp\":\"1970-01-01T00:00:00.000Z\",\"completion_timestamp\":null}},\"creation_timestamp\":\"1970-01-01T00:00:00.000Z\"}}}";
    match Data::from_json(bad) {
        Err(Error::Serde(_)) => {}
        _ => panic!("expected a decoding error"),
    }
}

#[test]
fn unrecognized_status_is_a_decoding_error() {
    let bad = "{\"projects\":{\"1\":{\"title\":\"X\",\"tasks\":{\"1\":{\"title\":\"t\",\"description\":\"d\",\"status\":\"Later\",\"creation_timestamp\":\"1970-01-01T00:00:00.000Z\",\"completion_timestamp\":null}},\"creation_timestamp\":\"1970-01-01T00:00:00.000Z\"}}}";
    match Data::from_json(bad) {
        Err(Error::Serde(_)) => {}
        _ => panic!("expected a decoding error"),
    }
}

#[test]
fn duplicate_key_is_a_decoding_error() {
    let one = "{\"title\":\"X\",\"tasks\":{},\"creation_timestamp\":\"1970-01-01T00:00:00.000Z\"}";
    let bad = format!("{{\"projects\":{{\"1\":{one},\"1\":{one}}}}}");
    match Data::from_json(&bad) {
        Err(Error::Serde(_)) => {}
        _ => panic!("expected a decoding error"),
    }
}

#[test]
fn inconsistent_completion_is_a_decoding_error() {
    // Status says Todo but a completion timestamp is present.
    let bad = "{\"projects\":{\"1\":{\"title\":\"X\",\"tasks\":{\"1\":{\"title\":\"t\",\"description\":\"d\",\"status\":\"Todo\",\"creation_timestamp\":\"1970-01-01T00:00:00.000Z\",\"completion_timestamp\":\"1970-01-01T00:00:01.000Z\"}},\"creation_timestamp\":\"1970-01-01T00:00:00.000Z\"}}}";
    match Data::from_json(bad) {
        Err(Error::Serde(_)) => {}
        _ => panic!("expected a decoding error"),
    }
}

#[test]
fn config_renders_and_round_trips() {
    let config = Config { data_source: DataSource::File("/tmp/data.json".to_string()) };
    let json = config.to_json();
    assert_eq!(json, "{\"data_source\":{\"File\":\"/tmp/data.json\"}}");
    let loaded = Config::from_json(&json).unwrap();
    assert!(loaded.data_source == DataSource::File("/tmp/data.json".to_string()));

    let config = Config { data_source: DataSource::Http("http://localhost:8080/d".to_string()) };
    let json = config.to_json();
    assert_eq!(json, "{\"data_source\":{\"Http\":\"http://localhost:8080/d\"}}");
    let loaded = Config::from_json(&json).unwrap();
    assert!(loaded.data_source == DataSource::Http("http://localhost:8080/d".to_string()));
}

#[test]
fn config_rejects_unknown_tags() {
    for bad in [
        "{\"data_source\":{\"Ftp\":\"x\"}}",
        "{\"data_source\":\"plain\"}",
        "{}",
    ] {
        match Config::from_json(bad) {
            Err(Error::Serde(_)) => {}
            _ => panic!("expected a decoding error for {:?}", bad),
        }
    }
}

#[test]
fn loaded_keys_drive_the_next_assignment() {
    // A document whose only project sits under key 57: after loading, the
    // next assignment must go one past the largest loaded key.
    let doc = "{\"projects\":{\"57\":{\"title\":\"X\",\"tasks\":{},\"creation_timestamp\":\"1970-01-01T00:00:00.000Z\"}}}";
    let mut loaded = Data::from_json(doc).unwrap();
    assert_eq!(loaded.projects.get_last_id(), 57);
    assert!(loaded.projects.get(57).is_some());
    let next = loaded.projects.add(Project::new_at("Y", 0));
    assert_eq!(next, 58);
}
