use mtpcopy::copy::copy;
use mtpcopy::copy_operate::command_copy;
use mtpcopy::copy_processor::LocalCopyProcessor;
use mtpcopy::device::{DeviceModel, Manager, StorageModel};
use mtpcopy::error::CopyError;
use mtpcopy::folder_operate::FolderOperate;
use mtpcopy::local_folder_imp::LocalFolder;
use mtpcopy::namespace::{
    clone_folder, FileData, FolderData, FsEntry, FsNode, LocalNamespace,
};
use mtpcopy::Paths;

fn file_entry(name: &str, content: &[u8], hidden: bool, system: bool) -> FsEntry {
    FsEntry {
        name: name.to_string(),
        node: FsNode::File(FileData {
            content: content.to_vec(),
            hidden,
            system,
            can_delete: true,
            created: None,
            modified: None,
        }),
    }
}

fn folder_entry(name: &str, children: Vec<FsEntry>) -> FsEntry {
    FsEntry {
        name: name.to_string(),
        node: FsNode::Folder(FolderData {
            children,
            hidden: false,
            system: false,
            can_delete: true,
            created: None,
            modified: None,
        }),
    }
}

fn hidden_folder_entry(name: &str, children: Vec<FsEntry>) -> FsEntry {
    FsEntry {
        name: name.to_string(),
        node: FsNode::Folder(FolderData {
            children,
            hidden: true,
            system: false,
            can_delete: true,
            created: None,
            modified: None,
        }),
    }
}

fn root_folder(children: Vec<FsEntry>) -> FolderData {
    FolderData {
        children,
        hidden: false,
        system: false,
        can_delete: true,
        created: None,
        modified: None,
    }
}

fn find<'a>(f: &'a FolderData, name: &str) -> Option<&'a FsNode> {
    for c in f.children.iter() {
        if c.name == name {
            return Some(&c.node);
        }
    }
    None
}

fn node_eq(a: &FsNode, b: &FsNode) -> bool {
    match (a, b) {
        (FsNode::File(x), FsNode::File(y)) => {
            x.content == y.content && x.hidden == y.hidden && x.system == y.system
                && x.created == y.created && x.modified == y.modified
        }
        (FsNode::Folder(x), FsNode::Folder(y)) => folder_eq(x, y),
        _ => false,
    }
}

fn folder_eq(a: &FolderData, b: &FolderData) -> bool {
    if a.hidden != b.hidden || a.system != b.system || a.children.len() != b.children.len() {
        return false;
    }
    for (x, y) in a.children.iter().zip(b.children.iter()) {
        if x.name != y.name || !node_eq(&x.node, &y.node) {
            return false;
        }
    }
    true
}

#[test]
fn copy_command_copy_device_to_local() {
    let mut manager = Manager::new(vec![]);
    let mut local = LocalNamespace::new(root_folder(vec![
        folder_entry("device:", vec![folder_entry(
            "test_data",
            vec![file_entry("file.txt", b"hello", false, false)],
        )]),
        folder_entry("dest", vec![folder_entry("test_data", vec![])]),
    ]));
    let paths = Paths {
        src: "device:/test_data/file.txt".to_string(),
        dest: "dest/test_data/file.txt".to_string(),
    };
    let result = copy(&mut manager, &mut local, &paths, false, false);
    assert!(result.is_ok());
}

#[test]
fn mod_command_copy_device_to_local() {
    let mut manager = Manager::new(vec![]);
    let mut local = LocalNamespace::new(root_folder(vec![
        folder_entry("device:", vec![folder_entry(
            "test_data",
            vec![file_entry("file.txt", b"hello", false, false)],
        )]),
        folder_entry("dest", vec![folder_entry("test_data", vec![])]),
    ]));
    let paths = Paths {
        src: "device:/test_data/file.txt".to_string(),
        dest: "dest/test_data/file.txt".to_string(),
    };
    let result = command_copy(&mut manager, &mut local, &paths, false, false);
    assert!(result.is_ok());
}

#[test]
fn copy_command_copy_local_to_device() {
    let mut manager = Manager::new(vec![DeviceModel {
        name: "Redmi K70".to_string(),
        storages: vec![StorageModel {
            name: "内部存储设备".to_string(),
            root: root_folder(vec![folder_entry("Pictures", vec![])]),
        }],
    }]);
    let mut local = LocalNamespace::new(root_folder(vec![folder_entry(
        "C:",
        vec![folder_entry(
            "Users",
            vec![folder_entry(
                "admin",
                vec![file_entry("java_error_in_gateway64_20100.log", b"log", false, false)],
            )],
        )],
    )]));
    let paths = Paths {
        src: "C:\\Users\\admin\\java_error_in_gateway64_20100.log".to_string(),
        dest: "Redmi K70:内部存储设备:/Pictures/file.txt".to_string(),
    };
    let result = copy(&mut manager, &mut local, &paths, false, false);
    assert!(result.is_ok());
    let pictures = match find(&manager.devices[0].storages[0].root, "Pictures").unwrap() {
        FsNode::Folder(f) => f,
        _ => panic!("Pictures should be a folder"),
    };
    match find(pictures, "file.txt").unwrap() {
        FsNode::File(f) => assert_eq!(f.content, b"log".to_vec()),
        _ => panic!("file.txt should be a file"),
    }
}

#[test]
fn mod_command_copy_local_to_device() {
    let mut manager = Manager::new(vec![DeviceModel {
        name: "Redmi K70".to_string(),
        storages: vec![StorageModel {
            name: "内部存储设备".to_string(),
            root: root_folder(vec![folder_entry("Pictures", vec![])]),
        }],
    }]);
    let mut local = LocalNamespace::new(root_folder(vec![folder_entry(
        "C:",
        vec![folder_entry(
            "Users",
            vec![folder_entry(
                "admin",
                vec![file_entry("java_error_in_gateway64_20100.log", b"log", false, false)],
            )],
        )],
    )]));
    let paths = Paths {
        src: "C:\\Users\\admin\\java_error_in_gateway64_20100.log".to_string(),
        dest: "Redmi K70:内部存储设备:/Pictures/file.txt".to_string(),
    };
    let result = command_copy(&mut manager, &mut local, &paths, false, false);
    assert!(result.is_ok());
}

#[test]
fn mirror_copy_leaves_exactly_the_visible_source() {
    // source: a.txt (10 bytes, visible) and b.txt (hidden); destination empty
    let src = FsNode::Folder(root_folder(vec![
        file_entry("a.txt", b"0123456789", false, false),
        file_entry("b.txt", b"secret", true, false),
    ]));
    let mut dest = LocalFolder::new(root_folder(vec![]));
    let processor = LocalCopyProcessor::new(src);
    let stats = processor
        .copy(&"data".to_string(), &mut dest, false, true, true)
        .unwrap();
    assert_eq!(stats.files_copied, 1);
    assert_eq!(dest.data.children.len(), 1);
    match find(&dest.data, "a.txt").unwrap() {
        FsNode::File(f) => assert_eq!(f.content, b"0123456789".to_vec()),
        _ => panic!("a.txt should be a file"),
    }
    assert!(find(&dest.data, "b.txt").is_none());
}

#[test]
fn mirror_copy_sweeps_a_stale_destination_entry() {
    // destination already holds old.txt, absent from the source
    let src = FsNode::Folder(root_folder(vec![file_entry("new.txt", b"new", false, false)]));
    let mut dest = LocalFolder::new(root_folder(vec![
        file_entry("old.txt", b"old", false, false),
    ]));
    let processor = LocalCopyProcessor::new(src);
    processor
        .copy(&"data".to_string(), &mut dest, false, true, true)
        .unwrap();
    assert!(find(&dest.data, "old.txt").is_none());
    assert!(find(&dest.data, "new.txt").is_some());
}

#[test]
fn mirror_copy_converges_by_name_and_kind() {
    let src = FsNode::Folder(root_folder(vec![
        file_entry("a.txt", b"aaaa", false, false),
        folder_entry("sub", vec![file_entry("c.txt", b"cc", false, false)]),
    ]));
    let mut dest = LocalFolder::new(root_folder(vec![
        file_entry("a.txt", b"stale longer content", false, false),
        folder_entry("junk", vec![]),
        folder_entry("sub", vec![file_entry("z.txt", b"zz", false, false)]),
    ]));
    let processor = LocalCopyProcessor::new(src);
    processor
        .copy(&"data".to_string(), &mut dest, false, true, true)
        .unwrap();
    assert_eq!(dest.data.children.len(), 2);
    match find(&dest.data, "a.txt").unwrap() {
        FsNode::File(f) => assert_eq!(f.content, b"aaaa".to_vec()),
        _ => panic!("a.txt should be a file"),
    }
    let sub = match find(&dest.data, "sub").unwrap() {
        FsNode::Folder(f) => f,
        _ => panic!("sub should be a folder"),
    };
    assert_eq!(sub.children.len(), 1);
    assert!(find(sub, "c.txt").is_some());
    assert!(find(sub, "z.txt").is_none());
    assert!(find(&dest.data, "junk").is_none());
}

#[test]
fn mirror_sweep_keeps_hidden_destination_entries() {
    // the sweep deletes only visible entries outside the retained set
    let src = FsNode::Folder(root_folder(vec![file_entry("a.txt", b"a", false, false)]));
    let mut dest = LocalFolder::new(root_folder(vec![
        file_entry("ghost.txt", b"g", true, false),
    ]));
    let processor = LocalCopyProcessor::new(src);
    processor
        .copy(&"data".to_string(), &mut dest, false, true, true)
        .unwrap();
    assert!(find(&dest.data, "ghost.txt").is_some());
    assert!(find(&dest.data, "a.txt").is_some());
}

#[test]
fn second_copy_is_a_no_op() {
    let src = FsNode::Folder(root_folder(vec![
        file_entry("a.txt", b"aaaa", false, false),
        folder_entry("sub", vec![file_entry("c.txt", b"cc", false, false)]),
    ]));
    let src2 = FsNode::Folder(root_folder(vec![
        file_entry("a.txt", b"aaaa", false, false),
        folder_entry("sub", vec![file_entry("c.txt", b"cc", false, false)]),
    ]));
    let mut dest = LocalFolder::new(root_folder(vec![]));
    let processor = LocalCopyProcessor::new(src);
    let stats1 = processor
        .copy(&"data".to_string(), &mut dest, false, true, false)
        .unwrap();
    assert_eq!(stats1.files_copied, 2);
    let after_first = clone_folder(&dest.data);
    // a fresh pass over the same destination: every file is skipped
    let mut dest2 = LocalFolder::new(dest.data);
    let processor2 = LocalCopyProcessor::new(src2);
    let stats2 = processor2
        .copy(&"data".to_string(), &mut dest2, false, true, false)
        .unwrap();
    assert_eq!(stats2.files_copied, 0);
    assert!(folder_eq(&dest2.data, &after_first));
}

#[test]
fn skipped_file_is_not_retransferred() {
    let src = FsNode::Folder(root_folder(vec![file_entry("a.txt", b"abcd", false, false)]));
    let mut dest = LocalFolder::new(root_folder(vec![
        file_entry("a.txt", b"wxyz", false, false),
    ]));
    // same size and both modification times absent: the skip test holds
    let processor = LocalCopyProcessor::new(src);
    let stats = processor
        .copy(&"data".to_string(), &mut dest, false, true, false)
        .unwrap();
    assert_eq!(stats.files_copied, 0);
    match find(&dest.data, "a.txt").unwrap() {
        FsNode::File(f) => assert_eq!(f.content, b"wxyz".to_vec()),
        _ => panic!("a.txt should be a file"),
    }
}

#[test]
fn wildcard_endpoint_is_refused() {
    let mut manager = Manager::new(vec![]);
    let mut local = LocalNamespace::new(root_folder(vec![folder_entry("c", vec![])]));
    let before = clone_folder(&local.root);
    let paths = Paths { src: "a/*/b".to_string(), dest: "c".to_string() };
    let result = command_copy(&mut manager, &mut local, &paths, false, false);
    assert_eq!(result.unwrap_err(), CopyError::ParseError);
    // a refused command leaves the worlds exactly as they were
    assert!(folder_eq(&local.root, &before));
}

#[test]
fn missing_source_is_not_found() {
    let mut manager = Manager::new(vec![]);
    let mut local = LocalNamespace::new(root_folder(vec![folder_entry("dst", vec![])]));
    let before = clone_folder(&local.root);
    let paths = Paths { src: "no/such/file".to_string(), dest: "dst".to_string() };
    let result = command_copy(&mut manager, &mut local, &paths, false, false);
    assert_eq!(result.unwrap_err(), CopyError::NotFound);
    assert!(folder_eq(&local.root, &before));
}

#[test]
fn hidden_destination_is_invalid() {
    let mut manager = Manager::new(vec![]);
    let mut local = LocalNamespace::new(root_folder(vec![
        file_entry("src.txt", b"x", false, false),
        hidden_folder_entry("secret", vec![]),
    ]));
    let paths = Paths { src: "src.txt".to_string(), dest: "secret".to_string() };
    let result = command_copy(&mut manager, &mut local, &paths, false, false);
    assert_eq!(result.unwrap_err(), CopyError::InvalidDestination);
}

#[test]
fn uncreatable_destination_parent_is_invalid() {
    let mut manager = Manager::new(vec![]);
    let mut local = LocalNamespace::new(root_folder(vec![
        file_entry("src.txt", b"x", false, false),
    ]));
    let paths = Paths { src: "src.txt".to_string(), dest: "absent/leaf".to_string() };
    let result = command_copy(&mut manager, &mut local, &paths, false, false);
    assert_eq!(result.unwrap_err(), CopyError::InvalidDestination);
}

#[test]
fn ambiguous_device_name_is_refused() {
    let mut manager = Manager::new(vec![
        DeviceModel {
            name: "dev".to_string(),
            storages: vec![StorageModel {
                name: "main".to_string(),
                root: root_folder(vec![file_entry("x.txt", b"x", false, false)]),
            }],
        },
        DeviceModel { name: "dev".to_string(), storages: vec![] },
    ]);
    let mut local = LocalNamespace::new(root_folder(vec![folder_entry("dst", vec![])]));
    let paths = Paths { src: "dev:main:/x.txt".to_string(), dest: "dst".to_string() };
    let result = command_copy(&mut manager, &mut local, &paths, false, false);
    assert_eq!(result.unwrap_err(), CopyError::AmbiguousMatch);
}

#[test]
fn folder_cannot_land_on_an_existing_file() {
    let mut manager = Manager::new(vec![]);
    let mut local = LocalNamespace::new(root_folder(vec![
        folder_entry("srcdir", vec![file_entry("a.txt", b"a", false, false)]),
        folder_entry("dst", vec![file_entry("srcdir", b"not a folder", false, false)]),
    ]));
    let paths = Paths { src: "srcdir".to_string(), dest: "dst/srcdir".to_string() };
    let result = command_copy(&mut manager, &mut local, &paths, true, false);
    assert_eq!(result.unwrap_err(), CopyError::BackendError);
}

#[test]
fn device_to_local_recursive_mirror() {
    let mut manager = Manager::new(vec![DeviceModel {
        name: "phone".to_string(),
        storages: vec![StorageModel {
            name: "main".to_string(),
            root: root_folder(vec![folder_entry(
                "Pictures",
                vec![
                    file_entry("p1.jpg", b"11111", false, false),
                    file_entry("hidden.jpg", b"hh", true, false),
                ],
            )]),
        }],
    }]);
    let mut local = LocalNamespace::new(root_folder(vec![folder_entry(
        "backup",
        vec![file_entry("stale.jpg", b"stale", false, false)],
    )]));
    let paths = Paths {
        src: "phone:main:/Pictures".to_string(),
        dest: "backup".to_string(),
    };
    let stats = command_copy(&mut manager, &mut local, &paths, true, true).unwrap();
    assert_eq!(stats.files_copied, 1);
    let backup = match find(&local.root, "backup").unwrap() {
        FsNode::Folder(f) => f,
        _ => panic!("backup should be a folder"),
    };
    // an existing destination folder is the target itself: the source
    // folder's children land in it directly
    match find(backup, "p1.jpg").unwrap() {
        FsNode::File(f) => assert_eq!(f.content, b"11111".to_vec()),
        _ => panic!("p1.jpg should be a file"),
    }
    assert!(find(backup, "hidden.jpg").is_none());
    assert!(find(backup, "stale.jpg").is_none());
}

#[test]
fn non_recursive_copy_creates_an_empty_folder() {
    let src = FsNode::Folder(root_folder(vec![file_entry("inner.txt", b"i", false, false)]));
    let mut dest = LocalFolder::new(root_folder(vec![]));
    let processor = LocalCopyProcessor::new(src);
    let stats = processor
        .copy(&"sub".to_string(), &mut dest, true, false, false)
        .unwrap();
    assert_eq!(stats.files_copied, 0);
    match find(&dest.data, "sub").unwrap() {
        FsNode::Folder(f) => assert_eq!(f.children.len(), 0),
        _ => panic!("sub should be a folder"),
    }
}

#[test]
fn get_file_info_reports_the_entry() {
    let dest = LocalFolder::new(root_folder(vec![
        file_entry("foo bar", b"abc", false, false),
        folder_entry("d", vec![]),
    ]));
    let info = dest.get_file_info(&"foo bar".to_string()).unwrap();
    assert_eq!(info.name, "foo bar");
    assert_eq!(info.data_size, 3);
    assert!(!info.is_folder);
    assert!(!info.is_hidden);
    assert!(!info.is_system);
    assert!(info.can_delete);
    let dinfo = dest.get_file_info(&"d".to_string()).unwrap();
    assert!(dinfo.is_folder);
    assert_eq!(dinfo.data_size, 0);
    assert!(dest.get_file_info(&"absent".to_string()).is_none());
}

#[test]
fn second_command_copy_transfers_nothing() {
    let mut manager = Manager::new(vec![]);
    let mut local = LocalNamespace::new(root_folder(vec![
        folder_entry(
            "srcdir",
            vec![
                file_entry("a.txt", b"aaaa", false, false),
                folder_entry("sub", vec![file_entry("c.txt", b"cc", false, false)]),
            ],
        ),
        folder_entry("dst", vec![]),
    ]));
    let paths = Paths { src: "srcdir".to_string(), dest: "dst/srcdir".to_string() };
    let stats1 = command_copy(&mut manager, &mut local, &paths, true, false).unwrap();
    assert_eq!(stats1.files_copied, 2);
    let stats2 = command_copy(&mut manager, &mut local, &paths, true, false).unwrap();
    assert_eq!(stats2.files_copied, 0);
}
