use mtpcopy::copy_operate::{
    get_destination_path_info, has_wildcard, inspect_local_path, TargetStatus,
};
use mtpcopy::device::{DeviceModel, Manager, StorageModel};
use mtpcopy::list::{list_devices, list_files, list_storages};
use mtpcopy::namespace::{FileData, FolderData, FsEntry, FsNode, LocalNamespace};
use mtpcopy::path::{get_path_type, split_segments, DeviceStoragePath, PathType};
use mtpcopy::path_matcher::{create_path_pattern_matcher, PathMatchingState};

fn file_entry(name: &str, content: &[u8], hidden: bool) -> FsEntry {
    FsEntry {
        name: name.to_string(),
        node: FsNode::File(FileData {
            content: content.to_vec(),
            hidden,
            system: false,
            can_delete: true,
            created: None,
            modified: None,
        }),
    }
}

fn folder_entry(name: &str, children: Vec<FsEntry>) -> FsEntry {
    FsEntry {
        name: name.to_string(),
        node: FsNode::Folder(FolderData {
            children,
            hidden: false,
            system: false,
            can_delete: true,
            created: None,
            modified: None,
        }),
    }
}

fn root_folder(children: Vec<FsEntry>) -> FolderData {
    FolderData {
        children,
        hidden: false,
        system: false,
        can_delete: true,
        created: None,
        modified: None,
    }
}

#[test]
fn matches_root_of_an_empty_segment_list_completes() {
    let m = create_path_pattern_matcher("").unwrap();
    let (state, next) = m.matches_root();
    assert_eq!(state, PathMatchingState::Completed);
    assert!(next.is_none());
}

#[test]
fn matches_root_of_a_pending_list_accepts() {
    let m = create_path_pattern_matcher("/a/b").unwrap();
    let (state, next) = m.matches_root();
    assert_eq!(state, PathMatchingState::Accepted);
    assert!(next.is_some());
}

#[test]
fn literal_segment_rejects_a_different_name() {
    let m = create_path_pattern_matcher("alpha").unwrap();
    let (_, next) = m.matches_root();
    let (state, _) = next.unwrap().matches("beta", true);
    assert_eq!(state, PathMatchingState::Rejected);
}

#[test]
fn literal_segment_completes_on_its_own_name() {
    let m = create_path_pattern_matcher("alpha").unwrap();
    let (_, next) = m.matches_root();
    let (state, cont) = next.unwrap().matches("alpha", false);
    assert_eq!(state, PathMatchingState::Completed);
    assert!(cont.is_none());
}

#[test]
fn trailing_star_matches_any_name() {
    let m = create_path_pattern_matcher("*").unwrap();
    let (_, next) = m.matches_root();
    let matcher = next.unwrap();
    let (s1, _) = matcher.matches("anything.txt", false);
    assert_eq!(s1, PathMatchingState::Completed);
    let (s2, _) = matcher.matches("a folder", true);
    assert_eq!(s2, PathMatchingState::Completed);
    let (s3, _) = matcher.matches("", false);
    assert_eq!(s3, PathMatchingState::Completed);
}

#[test]
fn two_segment_pattern_descends_then_completes() {
    let m = create_path_pattern_matcher("a/b").unwrap();
    let (_, next) = m.matches_root();
    let (state, cont) = next.unwrap().matches("a", true);
    assert_eq!(state, PathMatchingState::Accepted);
    let (state2, cont2) = cont.unwrap().matches("b", false);
    assert_eq!(state2, PathMatchingState::Completed);
    assert!(cont2.is_none());
}

#[test]
fn descent_through_a_file_is_rejected() {
    let m = create_path_pattern_matcher("a/b").unwrap();
    let (_, next) = m.matches_root();
    let (state, _) = next.unwrap().matches("a", false);
    assert_eq!(state, PathMatchingState::Rejected);
}

#[test]
fn question_mark_matches_exactly_one_character() {
    let m = create_path_pattern_matcher("a?c").unwrap();
    let (_, next) = m.matches_root();
    let matcher = next.unwrap();
    let (s1, _) = matcher.matches("abc", false);
    assert_eq!(s1, PathMatchingState::Completed);
    let (s2, _) = matcher.matches("ac", false);
    assert_eq!(s2, PathMatchingState::Rejected);
    let (s3, _) = matcher.matches("abbc", false);
    assert_eq!(s3, PathMatchingState::Rejected);
}

#[test]
fn star_in_the_middle_matches_runs() {
    let m = create_path_pattern_matcher("a*z.txt").unwrap();
    let (_, next) = m.matches_root();
    let matcher = next.unwrap();
    let (s1, _) = matcher.matches("az.txt", false);
    assert_eq!(s1, PathMatchingState::Completed);
    let (s2, _) = matcher.matches("a-very-long-z.txt", false);
    assert_eq!(s2, PathMatchingState::Completed);
    let (s3, _) = matcher.matches("b.txt", false);
    assert_eq!(s3, PathMatchingState::Rejected);
}

#[test]
fn path_types_are_classified() {
    assert_eq!(get_path_type(""), PathType::Invalid);
    assert_eq!(get_path_type("C:\\Users\\admin"), PathType::Local);
    assert_eq!(get_path_type("plain/path"), PathType::Local);
    assert_eq!(get_path_type("device:/one/colon"), PathType::Local);
    assert_eq!(get_path_type("dev:storage:/x"), PathType::DeviceStorage);
}

#[test]
fn device_storage_path_splits_on_the_first_two_colons() {
    let p = DeviceStoragePath::from("Redmi K70:内部存储设备:/Pictures/file.txt").unwrap();
    assert_eq!(p.device_name, "Redmi K70");
    assert_eq!(p.storage_name, "内部存储设备");
    assert_eq!(p.path, "/Pictures/file.txt");
    assert!(DeviceStoragePath::from("only:one colon").is_err());
    let full = p.full_path();
    assert_eq!(full, "Redmi K70:内部存储设备:/Pictures/file.txt");
}

#[test]
fn segments_drop_empty_runs() {
    let segs = split_segments("/a//b\\c/");
    let names: Vec<&str> = segs.iter().map(|s| s.as_str()).collect();
    assert_eq!(names, vec!["a", "b", "c"]);
    assert_eq!(split_segments("").len(), 0);
    assert_eq!(split_segments("///").len(), 0);
}

#[test]
fn wildcard_detection_checks_only_the_path_part() {
    assert_eq!(has_wildcard("a/b*c", PathType::Local).unwrap(), true);
    assert_eq!(has_wildcard("a/bc", PathType::Local).unwrap(), false);
    assert_eq!(has_wildcard("dev:stor:/a/?x", PathType::DeviceStorage).unwrap(), true);
    assert_eq!(has_wildcard("dev:stor:/a/x", PathType::DeviceStorage).unwrap(), false);
    assert_eq!(has_wildcard("any*thing", PathType::Invalid).unwrap(), false);
}

#[test]
fn destination_resolution_keeps_an_existing_folder() {
    let local = LocalNamespace::new(root_folder(vec![folder_entry("d", vec![])]));
    let insp = inspect_local_path(&local, "d").unwrap();
    assert_eq!(insp.target_status, TargetStatus::Folder);
    let r = get_destination_path_info(&insp, "d").unwrap().unwrap();
    assert_eq!(r.0, "d");
    assert!(r.1.is_none());
}

#[test]
fn destination_resolution_lands_a_new_leaf_in_its_parent() {
    let local = LocalNamespace::new(root_folder(vec![folder_entry("d", vec![])]));
    let insp = inspect_local_path(&local, "d/leaf.txt").unwrap();
    assert_eq!(insp.target_status, TargetStatus::NotExist);
    assert_eq!(insp.parent_status, TargetStatus::Folder);
    let r = get_destination_path_info(&insp, "d/leaf.txt").unwrap().unwrap();
    assert_eq!(r.0, "d");
    assert_eq!(r.1.unwrap(), "leaf.txt");
}

#[test]
fn destination_resolution_fails_without_a_parent_folder() {
    let local = LocalNamespace::new(root_folder(vec![]));
    let insp = inspect_local_path(&local, "missing/leaf.txt").unwrap();
    assert_eq!(insp.target_status, TargetStatus::NotExist);
    assert_eq!(insp.parent_status, TargetStatus::NotExist);
    let r = get_destination_path_info(&insp, "missing/leaf.txt").unwrap();
    assert!(r.is_none());
}

#[test]
fn hidden_destination_fails_resolution() {
    let local = LocalNamespace::new(root_folder(vec![FsEntry {
        name: "h".to_string(),
        node: FsNode::Folder(FolderData {
            children: vec![],
            hidden: true,
            system: false,
            can_delete: true,
            created: None,
            modified: None,
        }),
    }]));
    let insp = inspect_local_path(&local, "h").unwrap();
    assert_eq!(insp.target_status, TargetStatus::Hidden);
    assert!(get_destination_path_info(&insp, "h").is_err());
}

fn picture_world() -> Manager {
    Manager::new(vec![DeviceModel {
        name: "phone".to_string(),
        storages: vec![StorageModel {
            name: "main".to_string(),
            root: root_folder(vec![folder_entry(
                "Pictures",
                vec![
                    file_entry("a.jpg", b"aa", false),
                    file_entry("b.png", b"bb", false),
                    folder_entry("sub", vec![file_entry("c.jpg", b"cc", false)]),
                ],
            )]),
        }],
    }])
}

#[test]
fn list_files_matches_a_star_pattern() {
    let manager = picture_world();
    let found = list_files(&manager, "phone:main:/Pictures/*", false).unwrap();
    let mut names: Vec<String> = found.iter().map(|e| e.info.name.clone()).collect();
    names.sort();
    assert_eq!(names, vec!["a.jpg", "b.png", "sub"]);
}

#[test]
fn list_files_descends_recursively() {
    let manager = picture_world();
    let found = list_files(&manager, "phone:main:/Pictures", true).unwrap();
    let mut names: Vec<String> = found.iter().map(|e| e.info.name.clone()).collect();
    names.sort();
    assert_eq!(names, vec!["Pictures", "a.jpg", "b.png", "c.jpg", "sub"]);
}

#[test]
fn list_files_for_an_unknown_device_fails() {
    let manager = picture_world();
    assert!(list_files(&manager, "nobody:main:/x", false).is_err());
}

#[test]
fn storages_are_listed_as_lines() {
    let manager = picture_world();
    let lines = list_storages(&manager);
    assert_eq!(lines, vec!["phone:main:".to_string()]);
}

#[test]
fn devices_are_listed_and_filtered() {
    let manager = picture_world();
    assert_eq!(list_devices(&manager, None).len(), 1);
    let all = list_devices(&manager, Some(&"phone".to_string()));
    assert_eq!(all.len(), 1);
    assert_eq!(all[0].name, "phone");
    assert_eq!(list_devices(&manager, Some(&"other".to_string())).len(), 0);
}
