use std::sync::Arc;

use vfs_mux::fs::memfs::InMemoryFS;
use vfs_mux::{VFSError, VNodeOps, VNodeType, VFS};

#[test]
fn nested_mounts_scenario() {
    let a = Arc::new(InMemoryFS::new());
    let b = Arc::new(InMemoryFS::new());
    let vfs: VFS<dyn VNodeOps> = VFS::new();
    vfs.mount("/root", a.clone());
    vfs.mount("/root/nested", b.clone());

    let file = vfs.lookuppn("/root/file.txt").ok().unwrap();
    assert_eq!(file.path, "file.txt");
    assert_eq!(file.node_type, VNodeType::Regular);

    let other = vfs.lookuppn("/root/nested/other.txt").ok().unwrap();
    assert_eq!(other.path, "other.txt");
    assert_eq!(other.node_type, VNodeType::Regular);

    let dir = vfs.lookuppn("/root/").ok().unwrap();
    assert_eq!(dir.path, "");
    assert_eq!(dir.node_type, VNodeType::Directory);

    file.write("hello").unwrap();
    assert_eq!(file.read().unwrap(), "hello");
    assert_eq!(a.read("file.txt").unwrap(), "hello");
    assert!(matches!(b.read("file.txt"), Err(VFSError::NotFound)));

    other.write("greetings").unwrap();
    assert_eq!(b.read("other.txt").unwrap(), "greetings");
    assert!(matches!(a.read("other.txt"), Err(VFSError::NotFound)));
    assert!(matches!(a.read("nested/other.txt"), Err(VFSError::NotFound)));

    let missing = vfs.lookuppn("/root/missing.txt").ok().unwrap();
    assert!(matches!(missing.read(), Err(VFSError::NotFound)));
}

#[test]
fn a_second_lookup_of_the_same_path_reads_what_the_first_wrote() {
    let a = Arc::new(InMemoryFS::new());
    let vfs: VFS<dyn VNodeOps> = VFS::new();
    vfs.mount("/root", a.clone());

    vfs.lookuppn("/root/file.txt").ok().unwrap().write("X").unwrap();
    assert_eq!(vfs.lookuppn("/root/file.txt").ok().unwrap().read().unwrap(), "X");
    assert_eq!(vfs.lookuppn("/root//file.txt").ok().unwrap().read().unwrap(), "X");
}

#[test]
fn mounts_with_trailing_separators() {
    let root_fs = Arc::new(InMemoryFS::default());
    let nested_fs = Arc::new(InMemoryFS::default());
    let vfs: VFS<dyn VNodeOps> = VFS::new();
    vfs.mount("/root/", root_fs.clone());
    vfs.mount("/root/nested/", nested_fs.clone());

    vfs.lookuppn("/root/file.txt").ok().unwrap().write("Hello from root").unwrap();
    vfs.lookuppn("/root/nested/other.txt").ok().unwrap().write("Greetings from nested").unwrap();

    assert_eq!(vfs.lookuppn("/root/file.txt").ok().unwrap().read().unwrap(), "Hello from root");
    assert_eq!(
        vfs.lookuppn("/root/nested/other.txt").ok().unwrap().read().unwrap(),
        "Greetings from nested"
    );
    assert_eq!(root_fs.read("file.txt").unwrap(), "Hello from root");
    assert_eq!(nested_fs.read("other.txt").unwrap(), "Greetings from nested");

    let dir = vfs.lookuppn("/root/").ok().unwrap();
    assert_eq!(dir.path, "");
    assert_eq!(dir.node_type, VNodeType::Directory);
    vfs.lookuppn("/root/a.txt").ok().unwrap().write("first in order").unwrap();
    assert_eq!(dir.list_dir().unwrap(), vec!["a.txt".to_string(), "file.txt".to_string()]);
}

#[test]
fn lookup_without_a_covering_mount_is_not_found() {
    let vfs: VFS<dyn VNodeOps> = VFS::new();
    assert!(matches!(vfs.lookuppn("/nowhere"), Err(VFSError::NotFound)));
    vfs.mount("/a", Arc::new(InMemoryFS::new()));
    assert!(matches!(vfs.lookuppn("/ab"), Err(VFSError::NotFound)));
    assert!(matches!(vfs.lookuppn("/b/a"), Err(VFSError::NotFound)));
    assert!(vfs.lookuppn("/a/b").is_ok());
}

#[test]
fn unmount_through_the_shared_table() {
    let a = Arc::new(InMemoryFS::new());
    let b = Arc::new(InMemoryFS::new());
    let vfs: VFS<dyn VNodeOps> = VFS::new();
    vfs.mount("/a", a.clone());
    vfs.mount("/a/b", b.clone());

    assert!(matches!(vfs.unmount("/a/"), Err(VFSError::NotFound)));
    assert!(matches!(vfs.unmount("a"), Err(VFSError::NotFound)));
    assert!(matches!(vfs.unmount("/missing"), Err(VFSError::NotFound)));
    assert_eq!(vfs.lookuppn("/a/f").ok().unwrap().path, "f");
    assert!(vfs.unmount("/a/b").is_ok());
    assert_eq!(vfs.lookuppn("/a/b/f").ok().unwrap().path, "b/f");
    assert!(vfs.unmount("/a").is_ok());
    assert!(matches!(vfs.lookuppn("/a/b/f"), Err(VFSError::NotFound)));
    assert!(matches!(vfs.lookuppn("/a"), Err(VFSError::NotFound)));
    assert!(matches!(vfs.unmount("/a"), Err(VFSError::NotFound)));
}

#[test]
fn a_node_outlives_the_mount_it_came_from() {
    let a = Arc::new(InMemoryFS::new());
    let vfs: VFS<dyn VNodeOps> = VFS::new();
    vfs.mount("/a", a.clone());
    let node = vfs.lookuppn("/a/f").ok().unwrap();
    assert!(vfs.unmount("/a").is_ok());
    node.write("still here").unwrap();
    assert_eq!(a.read("f").unwrap(), "still here");
}

#[test]
fn mounting_twice_through_the_shared_table_changes_nothing() {
    let a = Arc::new(InMemoryFS::new());
    let vfs: VFS<dyn VNodeOps> = VFS::new();
    vfs.mount("/a", a.clone());
    let before = vfs.lookuppn("/a/f").ok().unwrap();
    vfs.mount("/a", a.clone());
    let after = vfs.lookuppn("/a/f").ok().unwrap();
    assert_eq!(before.path, after.path);
    assert_eq!(before.node_type, after.node_type);
    assert!(Arc::ptr_eq(&before.fs, &after.fs));
    assert!(vfs.unmount("/a").is_ok());
    assert!(matches!(vfs.lookuppn("/a/f"), Err(VFSError::NotFound)));
}

#[test]
fn a_table_of_trait_objects_is_the_default() {
    let vfs: VFS = VFS::new();
    vfs.mount("/mem", Arc::new(InMemoryFS::new()));
    vfs.mount("/none", Arc::new(vfs_mux::fs::dummy::DummyVnodeOps));

    let file = vfs.lookuppn("/mem/f").ok().unwrap();
    file.write("kept").unwrap();
    assert_eq!(file.read().unwrap(), "kept");

    let refused = vfs.lookuppn("/none/f").ok().unwrap();
    assert!(matches!(refused.read(), Err(VFSError::Other(_))));
    assert!(matches!(refused.write("x"), Err(VFSError::Other(_))));
}

#[test]
fn one_backend_type_without_trait_objects() {
    let a = Arc::new(InMemoryFS::new());
    let vfs: VFS<InMemoryFS> = VFS::new();
    vfs.mount("/a", a.clone());
    let node = vfs.lookuppn("/a/f").ok().unwrap();
    node.write("typed").unwrap();
    assert_eq!(a.read("f").unwrap(), "typed");
}
