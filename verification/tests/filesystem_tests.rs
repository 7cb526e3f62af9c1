use zatboard::filesystem::{FileNode, FileSystem, FileType};
use zatboard::permissions::Permissions;

#[test]
fn test_filesystem_creation() {
    let fs = FileSystem::new("zs1owner123".to_string());
    assert_eq!(fs.root.name, "/");
    assert_eq!(fs.root.file_type, FileType::Directory);
}

#[test]
fn test_directory_creation() {
    let mut fs = FileSystem::new("zs1owner123".to_string());

    let result = fs.create_directory("/home", "zs1owner123".to_string());
    assert!(result.is_ok());

    let home_dir = fs.resolve_path("/home");
    assert!(home_dir.is_some());
    assert_eq!(home_dir.unwrap().file_type, FileType::Directory);
}

#[test]
fn test_file_creation() {
    let mut fs = FileSystem::new("zs1owner123".to_string());

    fs.create_directory("/home", "zs1owner123".to_string()).unwrap();
    let result = fs.create_file(
        "/home/readme.txt",
        "Hello World!".to_string(),
        "zs1owner123".to_string(),
    );
    assert!(result.is_ok());

    let file = fs.resolve_path("/home/readme.txt");
    assert!(file.is_some());
    assert_eq!(file.unwrap().content, Some("Hello World!".to_string()));
}

#[test]
fn test_permissions() {
    let perms = Permissions::new("zs1owner123".to_string());

    assert!(perms.can_read("zs1owner123"));
    assert!(perms.can_write("zs1owner123"));
    assert!(perms.can_read("zs1other456"));
    assert!(!perms.can_write("zs1other456"));
}

#[test]
fn test_directory_listing() {
    let mut fs = FileSystem::new("zs1owner123".to_string());

    fs.create_directory("/home", "zs1owner123".to_string()).unwrap();
    fs.create_file("/home/file1.txt", "content1".to_string(), "zs1owner123".to_string())
        .unwrap();
    fs.create_file("/home/file2.txt", "content2".to_string(), "zs1owner123".to_string())
        .unwrap();

    let home_dir = fs.resolve_path("/home").unwrap();
    let listing = home_dir.list_children();

    assert_eq!(listing, vec!["file1.txt", "file2.txt"]);
}

#[test]
fn test_file_removal() {
    let mut fs = FileSystem::new("zs1owner123".to_string());

    fs.create_directory("/home", "zs1owner123".to_string()).unwrap();
    fs.create_file("/home/temp.txt", "temporary".to_string(), "zs1owner123".to_string())
        .unwrap();

    assert!(fs.resolve_path("/home/temp.txt").is_some());

    let result = fs.remove("/home/temp.txt", "zs1owner123");
    assert!(result.is_ok());
    assert!(fs.resolve_path("/home/temp.txt").is_none());
}

#[test]
fn test_directory_removal() {
    let mut fs = FileSystem::new("zs1owner123".to_string());

    fs.create_directory("/temp_dir", "zs1owner123".to_string()).unwrap();

    assert!(fs.resolve_path("/temp_dir").is_some());

    let result = fs.remove("/temp_dir", "zs1owner123");
    assert!(result.is_ok());
    assert!(fs.resolve_path("/temp_dir").is_none());
}

#[test]
fn test_remove_permission_denied() {
    let mut fs = FileSystem::new("zs1owner123".to_string());

    fs.create_file("/protected.txt", "secret".to_string(), "zs1owner123".to_string())
        .unwrap();

    let result = fs.remove("/protected.txt", "zs1other456");
    assert!(result.is_err());
    assert!(result.unwrap_err().contains("Permission denied"));
}

#[test]
fn test_remove_root_denied() {
    let mut fs = FileSystem::new("zs1owner123".to_string());

    let result = fs.remove("/", "zs1owner123");
    assert!(result.is_err());
    assert!(result.unwrap_err().contains("Cannot remove root directory"));
}

#[test]
fn test_created_node_records_creator() {
    let mut fs = FileSystem::new("zs1sys".to_string());
    fs.create_directory("/home", "zs1sys".to_string()).unwrap();
    fs.resolve_path_mut("/home")
        .unwrap()
        .permissions
        .add_write_permission("zs1alice".to_string());
    fs.create_file("/home/note.txt", "hi".to_string(), "zs1alice".to_string())
        .unwrap();
    let node = fs.resolve_path("/home/note.txt").unwrap();
    assert_eq!(node.created_by, "zs1alice");
    assert_eq!(node.file_type, FileType::File);
    let dir = fs.resolve_path("/home").unwrap();
    assert_eq!(dir.created_by, "zs1sys");
    assert_eq!(dir.file_type, FileType::Directory);
}

#[test]
fn test_listing_sorted_with_directory_suffix() {
    let mut fs = FileSystem::new("zs1owner".to_string());
    fs.create_directory("/home", "zs1owner".to_string()).unwrap();
    fs.create_file("/home/b.txt", "b".to_string(), "zs1owner".to_string()).unwrap();
    fs.create_file("/home/a.txt", "a".to_string(), "zs1owner".to_string()).unwrap();
    fs.create_directory("/home/c", "zs1owner".to_string()).unwrap();
    let listing = fs.resolve_path("/home").unwrap().list_children();
    assert_eq!(listing, vec!["a.txt", "b.txt", "c/"]);
}

#[test]
fn test_create_errors() {
    let mut fs = FileSystem::new("zs1owner".to_string());
    // the root itself cannot be created
    let err = fs.create_directory("/", "zs1owner".to_string()).unwrap_err();
    assert!(err.contains("Cannot create root"));
    // a missing parent is reported with its path
    let err = fs
        .create_directory("/missing/child", "zs1owner".to_string())
        .unwrap_err();
    assert_eq!(err, "Parent directory not found: /missing");
    // an existing directory is not overwritten
    fs.create_directory("/dir", "zs1owner".to_string()).unwrap();
    let err = fs.create_directory("/dir", "zs1owner".to_string()).unwrap_err();
    assert_eq!(err, "Directory already exists");
    // a file cannot hold children
    fs.create_file("/f.txt", "x".to_string(), "zs1owner".to_string()).unwrap();
    let err = fs
        .create_file("/f.txt/sub", "y".to_string(), "zs1owner".to_string())
        .unwrap_err();
    assert_eq!(err, "Cannot add children to a file");
    // an unauthorized actor cannot write the parent
    let err = fs
        .create_directory("/stranger", "zs1other".to_string())
        .unwrap_err();
    assert!(err.contains("Permission denied"));
}

#[test]
fn test_remove_missing_reports_path() {
    let mut fs = FileSystem::new("zs1owner".to_string());
    let err = fs.remove("/nothing.txt", "zs1owner").unwrap_err();
    assert_eq!(err, "File or directory not found: /nothing.txt");
}

#[test]
fn test_file_overwrite_replaces_content() {
    let mut fs = FileSystem::new("zs1owner".to_string());
    fs.create_file("/f.txt", "hello".to_string(), "zs1owner".to_string()).unwrap();
    fs.create_file("/f.txt", "world".to_string(), "zs1owner".to_string()).unwrap();
    let node = fs.resolve_path("/f.txt").unwrap();
    assert_eq!(node.content, Some("world".to_string()));
}

#[test]
fn test_owner_may_remove_without_parent_write() {
    let mut fs = FileSystem::new("zs1sys".to_string());
    let mine = FileNode::new_file("mine.txt".to_string(), "x".to_string(), "zs1alice".to_string());
    fs.root.add_child(mine).unwrap();
    // zs1alice owns the file but cannot write the root directory
    assert!(!fs.root.permissions.can_write("zs1alice"));
    fs.remove("/mine.txt", "zs1alice").unwrap();
    assert!(fs.resolve_path("/mine.txt").is_none());
}

#[test]
fn test_path_normalization() {
    let mut fs = FileSystem::new("zs1owner".to_string());
    fs.create_directory("/a", "zs1owner".to_string()).unwrap();
    fs.create_file("/a/b.txt", "x".to_string(), "zs1owner".to_string()).unwrap();
    // repeated and trailing slashes are insignificant
    assert!(fs.resolve_path("//a///b.txt").is_some());
    assert!(fs.resolve_path("/a/").is_some());
    assert!(fs.resolve_path("/").is_some());
    // descending into a file is "not found"
    assert!(fs.resolve_path("/a/b.txt/deeper").is_none());
}

#[test]
fn test_node_constructors() {
    let d = FileNode::new_directory("d".to_string(), "zs1o".to_string());
    assert_eq!(d.file_type, FileType::Directory);
    assert_eq!(d.content, None);
    assert_eq!(d.created_by, "zs1o");
    assert_eq!(d.created_at, d.modified_at);
    let f = FileNode::new_file("f".to_string(), "data".to_string(), "zs1o".to_string());
    assert_eq!(f.file_type, FileType::File);
    assert_eq!(f.content, Some("data".to_string()));
    assert!(f.children.is_empty());
}

#[test]
fn test_add_child_and_update_content() {
    let mut d = FileNode::new_directory("d".to_string(), "zs1o".to_string());
    let f = FileNode::new_file("f".to_string(), "one".to_string(), "zs1o".to_string());
    assert!(d.add_child(f).is_ok());
    assert!(d.get_child("f").is_some());
    assert!(d.get_child("g").is_none());
    let child = d.get_child_mut("f").unwrap();
    assert!(child.update_content("two".to_string()).is_ok());
    assert_eq!(d.get_child("f").unwrap().content, Some("two".to_string()));
    // a file accepts no children, a directory no content
    let mut f2 = FileNode::new_file("x".to_string(), "c".to_string(), "zs1o".to_string());
    let err = f2
        .add_child(FileNode::new_file("y".to_string(), "".to_string(), "zs1o".to_string()))
        .unwrap_err();
    assert_eq!(err, "Cannot add children to a file");
    let mut d2 = FileNode::new_directory("z".to_string(), "zs1o".to_string());
    let err = d2.update_content("nope".to_string()).unwrap_err();
    assert_eq!(err, "Cannot set content on a directory");
}
