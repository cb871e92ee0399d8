use std::sync::Arc;

use vfs_mux::fs::dummy::DummyVnodeOps;
use vfs_mux::fs::memfs::InMemoryFS;
use vfs_mux::{VFSError, VNode, VNodeOps, VNodeType};

fn node(path: &str, node_type: VNodeType, fs: &Arc<InMemoryFS>) -> VNode<InMemoryFS> {
    VNode { path: path.to_string(), node_type, fs: fs.clone() }
}

#[test]
fn write_then_read_returns_what_was_written() {
    let fs = Arc::new(InMemoryFS::new());
    let file = node("notes.txt", VNodeType::Regular, &fs);
    file.write("X").unwrap();
    assert_eq!(file.read().unwrap(), "X");
    file.write("Y").unwrap();
    assert_eq!(file.read().unwrap(), "Y");
}

#[test]
fn read_of_a_path_never_written_is_not_found() {
    let fs = Arc::new(InMemoryFS::new());
    let file = node("missing.txt", VNodeType::Regular, &fs);
    assert!(matches!(file.read(), Err(VFSError::NotFound)));
}

#[test]
fn read_and_write_on_a_directory_are_invalid() {
    let fs = Arc::new(InMemoryFS::new());
    fs.write("d", "content").unwrap();
    let dir = node("d", VNodeType::Directory, &fs);
    assert!(matches!(dir.read(), Err(VFSError::InvalidOperation)));
    assert!(matches!(dir.write("new"), Err(VFSError::InvalidOperation)));
    assert_eq!(fs.read("d").unwrap(), "content");
}

#[test]
fn list_dir_on_a_regular_file_is_invalid() {
    let fs = Arc::new(InMemoryFS::new());
    fs.write("f", "content").unwrap();
    let file = node("f", VNodeType::Regular, &fs);
    assert!(matches!(file.list_dir(), Err(VFSError::InvalidOperation)));
}

#[test]
fn list_dir_on_a_directory_asks_the_backend() {
    let fs = Arc::new(InMemoryFS::new());
    fs.write("d/b", "2").unwrap();
    fs.write("d/a", "1").unwrap();
    fs.write("d/sub/c", "3").unwrap();
    fs.write("e", "4").unwrap();
    let dir = node("d", VNodeType::Directory, &fs);
    assert_eq!(dir.list_dir().unwrap(), vec!["a".to_string(), "b".to_string()]);
}

#[test]
fn is_present_and_remove_work_for_either_type() {
    let fs = Arc::new(InMemoryFS::new());
    fs.write("f", "content").unwrap();
    let file = node("f", VNodeType::Regular, &fs);
    let dir = node("f", VNodeType::Directory, &fs);
    assert_eq!(file.is_present().unwrap(), true);
    assert_eq!(dir.is_present().unwrap(), true);
    assert!(dir.remove().is_ok());
    assert_eq!(file.is_present().unwrap(), false);
    assert!(matches!(file.remove(), Err(VFSError::NotFound)));
}

#[test]
fn open_and_close_reach_the_backend() {
    let fs = Arc::new(InMemoryFS::new());
    let file = node("f", VNodeType::Regular, &fs);
    assert!(file.open().is_ok());
    assert!(file.close().is_ok());

    let dummy: VNode<DummyVnodeOps> =
        VNode { path: "f".to_string(), node_type: VNodeType::Regular, fs: Arc::new(DummyVnodeOps) };
    assert!(matches!(dummy.open(), Err(VFSError::Other(_))));
    assert!(matches!(dummy.close(), Err(VFSError::Other(_))));
}

#[test]
fn failures_of_the_backend_come_through_unchanged() {
    let dummy: VNode<dyn VNodeOps> =
        VNode { path: "f".to_string(), node_type: VNodeType::Regular, fs: Arc::new(DummyVnodeOps) };
    match dummy.read() {
        Err(VFSError::Other(detail)) => assert_eq!(detail, "DummyVnodeOps: read not implemented"),
        _ => panic!("expected the backend's failure"),
    }
    match dummy.write("x") {
        Err(VFSError::Other(detail)) => assert_eq!(detail, "DummyVnodeOps: write not implemented"),
        _ => panic!("expected the backend's failure"),
    }
    match dummy.is_present() {
        Err(VFSError::Other(detail)) => {
            assert_eq!(detail, "DummyVnodeOps: is_present not implemented")
        }
        _ => panic!("expected the backend's failure"),
    }
    match dummy.remove() {
        Err(VFSError::Other(detail)) => assert_eq!(detail, "DummyVnodeOps: remove not implemented"),
        _ => panic!("expected the backend's failure"),
    }
    let dir: VNode<dyn VNodeOps> = VNode {
        path: "".to_string(),
        node_type: VNodeType::Directory,
        fs: Arc::new(DummyVnodeOps),
    };
    match dir.list_dir() {
        Err(VFSError::Other(detail)) => {
            assert_eq!(detail, "DummyVnodeOps: list_dir not implemented")
        }
        _ => panic!("expected the backend's failure"),
    }
    assert!(matches!(dir.read(), Err(VFSError::InvalidOperation)));
}

#[test]
fn resolved_infers_the_type() {
    let fs = Arc::new(InMemoryFS::new());
    assert_eq!(VNode::resolved("/m/f", "f".to_string(), fs.clone()).node_type, VNodeType::Regular);
    assert_eq!(
        VNode::resolved("/m/d/", "d/".to_string(), fs.clone()).node_type,
        VNodeType::Directory
    );
    assert_eq!(VNode::resolved("/m", "".to_string(), fs.clone()).node_type, VNodeType::Directory);
    assert_eq!(VNode::resolved("/m/", "".to_string(), fs.clone()).node_type, VNodeType::Directory);
    let node = VNode::resolved("/m/f", "f".to_string(), fs.clone());
    assert_eq!(node.path, "f");
    assert!(Arc::ptr_eq(&node.fs, &fs));
}

/// A backend written outside the library: it counts its sessions and
/// remembers the last path it was handed.
struct Recorder {
    seen: std::sync::Mutex<Vec<String>>,
}

impl Recorder {
    fn note(&self, operation: &str, path: &str) {
        self.seen.lock().unwrap().push(format!("{} {}", operation, path));
    }
}

impl VNodeOps for Recorder {
    fn read(&self, path: &str) -> Result<String, VFSError> {
        self.note("read", path);
        Err(VFSError::PermissionDenied)
    }

    fn write(&self, path: &str, content: &str) -> Result<(), VFSError> {
        self.note("write", path);
        if content.is_empty() {
            Err(VFSError::AlreadyExists)
        } else {
            Ok(())
        }
    }

    fn open(&self, path: &str) -> Result<(), VFSError> {
        self.note("open", path);
        Ok(())
    }

    fn close(&self, path: &str) -> Result<(), VFSError> {
        self.note("close", path);
        Ok(())
    }

    fn is_present(&self, path: &str) -> Result<bool, VFSError> {
        self.note("is_present", path);
        Ok(true)
    }

    fn remove(&self, path: &str) -> Result<(), VFSError> {
        self.note("remove", path);
        Ok(())
    }

    fn list_dir(&self, path: &str) -> Result<Vec<String>, VFSError> {
        self.note("list_dir", path);
        Ok(vec!["x".to_string()])
    }
}

#[test]
fn a_node_hands_its_own_path_to_the_backend() {
    let recorder = Arc::new(Recorder { seen: std::sync::Mutex::new(Vec::new()) });
    let file: VNode<dyn VNodeOps> =
        VNode { path: "dir/file".to_string(), node_type: VNodeType::Regular, fs: recorder.clone() };
    let dir: VNode<dyn VNodeOps> =
        VNode { path: "dir".to_string(), node_type: VNodeType::Directory, fs: recorder.clone() };

    assert!(matches!(file.read(), Err(VFSError::PermissionDenied)));
    assert!(file.write("content").is_ok());
    assert!(matches!(file.write(""), Err(VFSError::AlreadyExists)));
    assert!(file.open().is_ok());
    assert!(file.close().is_ok());
    assert_eq!(file.is_present().unwrap(), true);
    assert!(file.remove().is_ok());
    assert_eq!(dir.list_dir().unwrap(), vec!["x".to_string()]);
    assert!(matches!(dir.read(), Err(VFSError::InvalidOperation)));
    assert!(matches!(dir.write("content"), Err(VFSError::InvalidOperation)));
    assert!(matches!(file.list_dir(), Err(VFSError::InvalidOperation)));

    let seen = recorder.seen.lock().unwrap().clone();
    assert_eq!(
        seen,
        vec![
            "read dir/file".to_string(),
            "write dir/file".to_string(),
            "write dir/file".to_string(),
            "open dir/file".to_string(),
            "close dir/file".to_string(),
            "is_present dir/file".to_string(),
            "remove dir/file".to_string(),
            "list_dir dir".to_string(),
        ]
    );
}
