use tide::file_times::FileTimes;
use tide::watcher::{watch, Dir, Entry, FileInfo};

fn file(dir: &str, name: &str, mtime: u64) -> Entry {
    Entry::File(FileInfo {
        path: format!("{}/{}", dir, name),
        name: name.to_string(),
        mtime: Some(mtime),
    })
}

fn dir(parent: &str, name: &str, entries: Vec<Entry>) -> Entry {
    Entry::Dir(Dir {
        path: format!("{}/{}", parent, name),
        name: name.to_string(),
        contents: Some(entries),
    })
}

fn root(entries: Vec<Entry>) -> Dir {
    Dir { path: ROOT.to_string(), name: "root".to_string(), contents: Some(entries) }
}

fn path(rel: &str) -> String {
    format!("{}/{}", ROOT, rel)
}

const ROOT: &str = "/tmp/scan_root";

#[test]
fn test_test_input_args() {}

#[test]
fn test_test_new_file_detection() {
    let tree = root(vec![file(ROOT, "test.txt", 1000)]);
    let mut files = FileTimes::new();
    let ignore_dirs: Vec<String> = vec![];
    let ignore_files: Vec<String> = vec![];
    let ignore_exts: Vec<String> = vec![];

    let result = watch(&tree, &ignore_dirs, &ignore_files, &ignore_exts, &mut files);

    assert!(result.unwrap(), "Should return true for new file");
    assert_eq!(files.len(), 1, "Should track one file");
    assert!(files.contains_key(&path("test.txt")), "Should track test.txt");
    assert_eq!(files.get(&path("test.txt")), Some(1000), "Should store correct modification time");
}

#[test]
fn test_test_file_modification_detection() {
    let mut files = FileTimes::new();
    files.record(&path("test.txt"), 1000);

    // the file was rewritten since
    let tree = root(vec![file(ROOT, "test.txt", 2000)]);
    let ignore_dirs: Vec<String> = vec![];
    let ignore_files: Vec<String> = vec![];
    let ignore_exts: Vec<String> = vec![];

    let result = watch(&tree, &ignore_dirs, &ignore_files, &ignore_exts, &mut files);

    assert!(result.unwrap(), "Should return true for modified file");
    assert_eq!(files.len(), 1, "Should track one file");
    assert_eq!(files.get(&path("test.txt")), Some(2000), "Should update modification time");
}

#[test]
fn test_test_directory_recursion() {
    let sub = path("subdir");
    let tree = root(vec![dir(ROOT, "subdir", vec![file(&sub, "nested.txt", 1000)])]);
    let mut files = FileTimes::new();
    let ignore_dirs: Vec<String> = vec![];
    let ignore_files: Vec<String> = vec![];
    let ignore_exts: Vec<String> = vec![];

    let result = watch(&tree, &ignore_dirs, &ignore_files, &ignore_exts, &mut files);

    assert!(result.unwrap(), "Should return true for nested file");
    assert_eq!(files.len(), 1, "Should track one file");
    assert!(files.contains_key(&path("subdir/nested.txt")), "Should track nested.txt");
}

#[test]
fn test_test_ignore_directories() {
    let ignored = path("ignore_me");
    let tree = root(vec![dir(ROOT, "ignore_me", vec![file(&ignored, "test.txt", 1000)])]);
    let mut files = FileTimes::new();
    let ignore_dirs = vec!["ignore_me".to_string()];
    let ignore_files: Vec<String> = vec![];
    let ignore_exts: Vec<String> = vec![];

    let result = watch(&tree, &ignore_dirs, &ignore_files, &ignore_exts, &mut files);

    assert!(!result.unwrap(), "Should return false when ignoring directory");
    assert_eq!(files.len(), 0, "Should not track files in ignored directory");
}

#[test]
fn test_test_ignore_files() {
    let tree = root(vec![file(ROOT, "ignore.txt", 1000)]);
    println!("{:#?}", tree);
    let mut files = FileTimes::new();
    let ignore_dirs: Vec<String> = vec![];
    let ignore_files = vec!["ignore.txt".to_string()];
    let ignore_exts: Vec<String> = vec![];

    let result = watch(&tree, &ignore_dirs, &ignore_files, &ignore_exts, &mut files);

    assert!(!result.unwrap(), "Should return false when ignoring file");
    assert_eq!(files.len(), 0, "Should not track ignored file");
}

#[test]
fn test_test_ignore_extensions() {
    let tree = root(vec![file(ROOT, "test.ignore", 1000)]);
    let mut files = FileTimes::new();
    let ignore_dirs: Vec<String> = vec![];
    let ignore_files: Vec<String> = vec![];
    let ignore_exts = vec!["ignore".to_string()];

    let result = watch(&tree, &ignore_dirs, &ignore_files, &ignore_exts, &mut files);

    assert!(!result.unwrap(), "Should return false when ignoring extension");
    assert_eq!(files.len(), 0, "Should not track file with ignored extension");
}

#[test]
fn test_test_empty_directory() {
    let tree = root(vec![]);
    let mut files = FileTimes::new();
    let ignore_dirs: Vec<String> = vec![];
    let ignore_files: Vec<String> = vec![];
    let ignore_exts: Vec<String> = vec![];

    let result = watch(&tree, &ignore_dirs, &ignore_files, &ignore_exts, &mut files);

    assert!(!result.unwrap(), "Should return false for empty directory");
    assert_eq!(files.len(), 0, "Should not track any files");
}
