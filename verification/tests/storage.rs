use capsule_box::container::ContainerInfo;
use capsule_box::error::AppError;
use capsule_box::script::Op;
use capsule_box::storage::{
    delete, file_path, is_metadata_file, load_all, save, ContainerMetadata, StoredFile,
};

fn info(id: &str) -> ContainerInfo {
    ContainerInfo {
        id: id.to_string(),
        command: vec!["sleep".to_string(), "300".to_string()],
        state: "Running".to_string(),
        memory_limit: "64M".to_string(),
        pid: Some(77),
        ip: Some("10.0.0.9".to_string()),
    }
}

fn file(name: &str, content: Result<Option<ContainerMetadata>, AppError>) -> StoredFile {
    StoredFile { name: name.to_string(), content }
}

#[test]
fn metadata_stands_in_a_file_of_its_own() {
    assert_eq!(file_path("000012ab34cd"), "/var/lib/cb/containers/000012ab34cd.json");
    assert_eq!(file_path(""), "/var/lib/cb/containers/.json");
    assert_eq!(file_path("/etc/x"), "/etc/x.json");
}

#[test]
fn saving_writes_the_metadata() {
    let plan = save(&info("abc"));
    assert_eq!(plan.dir, "/var/lib/cb/containers");
    assert_eq!(plan.path, "/var/lib/cb/containers/abc.json");
    assert_eq!(plan.metadata.id, "abc");
    assert_eq!(plan.metadata.command, vec!["sleep", "300"]);
    assert_eq!(plan.metadata.state, "Running");
    assert_eq!(plan.metadata.memory_limit, "64M");
    assert_eq!(plan.metadata.pid, Some(77));
    assert_eq!(plan.metadata.ip, Some("10.0.0.9".to_string()));
}

#[test]
fn deleting_removes_the_file_that_was_saved() {
    let path = save(&info("abc")).path;
    assert!(matches!(delete("abc"), Op::RemoveFile { path: removed } if removed == path));
}

#[test]
fn metadata_is_told_by_its_extension() {
    assert!(is_metadata_file("abc.json"));
    assert!(is_metadata_file("..json"));
    assert!(is_metadata_file("a.b.json"));
    assert!(is_metadata_file("容器.json"));
    assert!(!is_metadata_file(".json"));
    assert!(!is_metadata_file("json"));
    assert!(!is_metadata_file("abc.JSON"));
    assert!(!is_metadata_file("abc.json.bak"));
    assert!(!is_metadata_file("abcjson"));
    assert!(!is_metadata_file(""));
}

#[test]
fn what_was_saved_is_loaded() {
    let a = save(&info("a")).metadata;
    let b = save(&info("b")).metadata;
    let list = match load_all(vec![file("a.json", Ok(Some(a))), file("b.json", Ok(Some(b)))]) {
        Ok(list) => list,
        Err(_) => panic!("not loaded"),
    };
    assert_eq!(list.len(), 2);
    assert_eq!(list[0].id, "a");
    assert_eq!(list[1].id, "b");
    assert_eq!(list[1].command, vec!["sleep", "300"]);
    assert_eq!(list[1].pid, Some(77));
}

#[test]
fn other_and_damaged_files_are_passed_over() {
    let a = save(&info("a")).metadata;
    let b = save(&info("b")).metadata;
    let list = load_all(vec![
        file("notes.txt", Err(AppError::Io("unread".to_string()))),
        file("a.json", Ok(Some(a))),
        file("damaged.json", Ok(None)),
        file("b.txt", Ok(Some(b))),
    ]);
    assert!(matches!(list, Ok(list) if list.len() == 1 && list[0].id == "a"));
}

#[test]
fn the_first_unreadable_file_ends_loading() {
    let a = save(&info("a")).metadata;
    let list = load_all(vec![
        file("a.json", Ok(Some(a))),
        file("b.json", Err(AppError::Io("first".to_string()))),
        file("c.json", Err(AppError::Io("second".to_string()))),
    ]);
    assert!(matches!(list, Err(AppError::Io(cause)) if cause == "first"));
    assert!(matches!(load_all(vec![]), Ok(list) if list.is_empty()));
}

#[test]
fn metadata_and_info_convert_into_each_other() {
    let before = info("abc");
    let back = ContainerInfo::from(ContainerMetadata::from(&before));
    assert_eq!(back.id, before.id);
    assert_eq!(back.command, before.command);
    assert_eq!(back.state, before.state);
    assert_eq!(back.memory_limit, before.memory_limit);
    assert_eq!(back.pid, before.pid);
    assert_eq!(back.ip, before.ip);
}
