use melon::cgroups::{CGroups, CGroupsError, FileSystem, FsError, FsErrorKind, MemFileSystem};

fn setup_cgroup(fs: &mut MemFileSystem, name: &str) {
    let dir = format!("/sys/fs/cgroup/melon/{}", name);
    fs.create_dir_all(&dir).unwrap();
    fs.write(&format!("{}/cgroup.procs", dir), "1000\n2000\n3000".as_bytes()).unwrap();
}

fn set_running_processes(fs: &mut MemFileSystem, pids: Vec<i32>) {
    for pid in pids {
        fs.write(&format!("/proc/{}/stat", pid), &[]).unwrap();
    }
}

fn text_of(fs: &MemFileSystem, path: &str) -> String {
    String::from_utf8(fs.read(path).unwrap()).unwrap()
}

#[test]
fn test_cgroups_builder() {
    let cgroup = CGroups::<MemFileSystem>::build()
        .name("test_cgroup")
        .with_cpu("0-1")
        .with_memory(1024 * 1024)
        .with_io("8:0 rbps=1048576")
        .build()
        .unwrap();

    assert_eq!(cgroup.name, "test_cgroup");
    assert_eq!(cgroup.cpus, Some("0-1".to_string()));
    assert_eq!(cgroup.memory, Some(1024 * 1024));
    assert_eq!(cgroup.io, Some("8:0 rbps=1048576".to_string()));
}

#[test]
fn test_cgroups_builder_without_name() {
    let result = CGroups::<MemFileSystem>::build().build();
    assert!(matches!(result, Err(CGroupsError::InvalidCGroupName(_))));
}

#[test]
fn test_cgroup_creation() {
    let mut cgroup = CGroups::build()
        .name("test_cgroup")
        .with_cpu("0-1")
        .with_memory(1024 * 1024)
        .with_io("8:0 rbps=1048576")
        .with_fs(MemFileSystem::new())
        .build()
        .unwrap();

    assert!(cgroup.create().is_ok());
    let fs = cgroup.fs.as_ref().unwrap();
    assert!(fs.read("/sys/fs/cgroup/melon/test_cgroup").is_ok());
    assert_eq!(text_of(fs, "/sys/fs/cgroup/melon/test_cgroup/cpuset.cpus"), "0-1");
    assert_eq!(text_of(fs, "/sys/fs/cgroup/melon/test_cgroup/memory.max"), "1048576");
    assert_eq!(text_of(fs, "/sys/fs/cgroup/melon/test_cgroup/io.max"), "8:0 rbps=1048576");
    assert_eq!(
        text_of(fs, "/sys/fs/cgroup/melon/test_cgroup/cgroup.subtree_control"),
        "+cpuset +memory +io"
    );
}

#[test]
fn test_cgroup_creation_with_partial_settings() {
    let mut cgroup = CGroups::build()
        .name("test_cgroup")
        .with_cpu("0-1")
        .with_fs(MemFileSystem::new())
        .build()
        .unwrap();

    assert!(cgroup.create().is_ok());
    let fs = cgroup.fs.as_ref().unwrap();
    assert_eq!(text_of(fs, "/sys/fs/cgroup/melon/test_cgroup/cpuset.cpus"), "0-1");
    assert_eq!(text_of(fs, "/sys/fs/cgroup/melon/test_cgroup/cgroup.subtree_control"), "+cpuset");
    assert!(fs.read("/sys/fs/cgroup/melon/test_cgroup/memory.max").is_err());
    assert!(fs.read("/sys/fs/cgroup/melon/test_cgroup/io.max").is_err());
}

#[test]
fn test_add_process() {
    let mut cgroup = CGroups::build()
        .name("test_cgroup")
        .with_fs(MemFileSystem::new())
        .build()
        .unwrap();

    cgroup.create().unwrap();
    assert!(cgroup.add_process(1234).is_ok());
    assert!(cgroup.add_process(5678).is_ok());
    let fs = cgroup.fs.as_ref().unwrap();
    assert_eq!(text_of(fs, "/sys/fs/cgroup/melon/test_cgroup/cgroup.procs"), "1234\n5678\n");
}

#[test]
fn test_remove_success() {
    let mut fs = MemFileSystem::new();
    setup_cgroup(&mut fs, "test_cgroup");
    let mut cgroup = CGroups::build().name("test_cgroup").with_fs(fs).build().unwrap();

    assert!(cgroup.remove().is_ok());
    assert!(!cgroup.fs.as_ref().unwrap().contains("/sys/fs/cgroup/melon/test_cgroup"));
}

#[test]
fn test_remove_cgroup_not_found() {
    let mut cgroup = CGroups::build()
        .name("non_existent_cgroup")
        .with_fs(MemFileSystem::new())
        .build()
        .unwrap();

    let result = cgroup.remove();
    assert!(matches!(result, Err(CGroupsError::CGroupRemovalFailed(_))));
}

#[test]
fn test_remove_with_running_processes() {
    let mut fs = MemFileSystem::new();
    setup_cgroup(&mut fs, "test_cgroup");
    set_running_processes(&mut fs, vec![1000, 2000]);
    let mut cgroup = CGroups::build().name("test_cgroup").with_fs(fs).build().unwrap();

    let result = cgroup.remove();
    assert!(matches!(result, Err(CGroupsError::CGroupHasRunningProcesses)));
}

#[test]
fn remove_takes_files_below_the_group_only() {
    let mut fs = MemFileSystem::new();
    setup_cgroup(&mut fs, "a");
    setup_cgroup(&mut fs, "ab");
    let mut cgroup = CGroups::build().name("a").with_fs(fs).build().unwrap();
    assert!(cgroup.remove().is_ok());
    let fs = cgroup.fs.as_ref().unwrap();
    assert!(!fs.contains("/sys/fs/cgroup/melon/a"));
    assert!(!fs.contains("/sys/fs/cgroup/melon/a/cgroup.procs"));
    assert!(fs.contains("/sys/fs/cgroup/melon/ab"));
    assert!(fs.contains("/sys/fs/cgroup/melon/ab/cgroup.procs"));
}

#[test]
fn remove_fails_when_procs_cannot_be_read() {
    let mut fs = MemFileSystem::new();
    fs.create_dir_all("/sys/fs/cgroup/melon/g").unwrap();
    let mut cgroup = CGroups::build().name("g").with_fs(fs).build().unwrap();
    assert!(matches!(cgroup.remove(), Err(CGroupsError::CGroupReadFailed(_))));
}

#[test]
fn operations_without_filesystem_fail() {
    let mut cgroup = CGroups::<MemFileSystem>::build().name("g").build().unwrap();
    assert!(matches!(cgroup.create(), Err(CGroupsError::CGroupCreationFailed(_))));
    assert!(matches!(cgroup.add_process(1), Err(CGroupsError::AddProcessFailed(_))));
    assert!(matches!(cgroup.remove(), Err(CGroupsError::CGroupRemovalFailed(_))));
}

#[test]
fn mem_filesystem_read_gives_last_write() {
    let mut fs = MemFileSystem::new();
    fs.write("/x", b"first").unwrap();
    fs.write("/y", b"other").unwrap();
    fs.write("/x", b"second").unwrap();
    assert_eq!(fs.read("/x").unwrap(), b"second".to_vec());
    assert_eq!(fs.read("/y").unwrap(), b"other".to_vec());
    assert_eq!(fs.read_to_string("/x").unwrap(), "second");
    assert!(fs.read("/z").is_err());
    fs.append("/x", b"!").unwrap();
    assert_eq!(fs.read("/x").unwrap(), b"second!".to_vec());
    assert!(fs.path_exists("/y"));
}

#[test]
fn fs_errors_map_to_cgroup_errors() {
    let denied = FsError { kind: FsErrorKind::PermissionDenied, message: "Permission denied".to_string() };
    assert!(matches!(CGroupsError::from_fs(denied), CGroupsError::NotRoot));
    let missing = FsError { kind: FsErrorKind::NotFound, message: "gone".to_string() };
    assert!(matches!(CGroupsError::from_fs(missing), CGroupsError::CGroupFileNotFound(m) if m == "gone"));
    let other = FsError { kind: FsErrorKind::Other, message: "odd".to_string() };
    assert!(matches!(CGroupsError::from_fs(other), CGroupsError::Unknown(m) if m == "odd"));
}

fn denied() -> FsError {
    FsError { kind: FsErrorKind::PermissionDenied, message: "Permission denied".to_string() }
}

struct FailingMockFileSystem;

impl FileSystem for FailingMockFileSystem {
    fn create_dir_all(&mut self, _path: &str) -> Result<(), FsError> {
        Err(denied())
    }
    fn write(&mut self, _path: &str, _contents: &[u8]) -> Result<(), FsError> {
        Err(denied())
    }
    fn append(&mut self, _path: &str, _contents: &[u8]) -> Result<(), FsError> {
        Err(denied())
    }
    fn read_to_string(&mut self, _path: &str) -> Result<String, FsError> {
        Err(denied())
    }
    fn path_exists(&mut self, _path: &str) -> bool {
        false
    }
    fn remove_dir(&mut self, _path: &str) -> Result<(), FsError> {
        Err(denied())
    }
}

/// Everything works but removing directories.
struct NoRemovalFileSystem(MemFileSystem);

impl FileSystem for NoRemovalFileSystem {
    fn create_dir_all(&mut self, path: &str) -> Result<(), FsError> {
        self.0.create_dir_all(path)
    }
    fn write(&mut self, path: &str, contents: &[u8]) -> Result<(), FsError> {
        self.0.write(path, contents)
    }
    fn append(&mut self, path: &str, contents: &[u8]) -> Result<(), FsError> {
        self.0.append(path, contents)
    }
    fn read_to_string(&mut self, path: &str) -> Result<String, FsError> {
        self.0.read_to_string(path)
    }
    fn path_exists(&mut self, path: &str) -> bool {
        self.0.path_exists(path)
    }
    fn remove_dir(&mut self, _path: &str) -> Result<(), FsError> {
        Err(denied())
    }
}

#[test]
fn test_cgroup_creation_failure() {
    let mut cgroup = CGroups::build().name("test_cgroup").with_fs(FailingMockFileSystem).build().unwrap();
    let result = cgroup.create();
    assert!(matches!(result, Err(CGroupsError::CGroupCreationFailed(_))));
}

#[test]
fn test_add_process_failure() {
    let mut cgroup = CGroups::build().name("test_cgroup").with_fs(FailingMockFileSystem).build().unwrap();
    let result = cgroup.add_process(1234);
    assert!(matches!(result, Err(CGroupsError::AddProcessFailed(_))));
}

#[test]
fn test_remove_failed() {
    let mut fs = MemFileSystem::new();
    fs.create_dir_all("/sys/fs/cgroup/melon/test_cgroup").unwrap();
    fs.write("/sys/fs/cgroup/melon/test_cgroup/cgroup.procs", &[]).unwrap();
    let mut cgroup = CGroups::build().name("test_cgroup").with_fs(NoRemovalFileSystem(fs)).build().unwrap();
    let result = cgroup.remove();
    assert!(matches!(result, Err(CGroupsError::CGroupRemovalFailed(_))));
}

#[test]
fn missing_group_is_reported_not_found() {
    let mut cgroup = CGroups::build().name("absent").with_fs(MemFileSystem::new()).build().unwrap();
    match cgroup.remove() {
        Err(CGroupsError::CGroupRemovalFailed(e)) => assert_eq!(e.kind, FsErrorKind::NotFound),
        _ => panic!("expected a removal failure"),
    }
}
