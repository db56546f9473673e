use leviticus::vfs::{attr, block_count, file_data, read_slice, Attr, FileKind, FsError, LoiFs};

fn names(v: &[leviticus::vfs::DirEntry]) -> Vec<(u64, u64, FileKind, String)> {
    v.iter().map(|e| (e.ino, e.offset, e.kind, e.name.clone())).collect()
}

#[test]
fn block_count_rounds_up() {
    assert_eq!(block_count(0), 0);
    assert_eq!(block_count(1), 1);
    assert_eq!(block_count(511), 1);
    assert_eq!(block_count(512), 1);
    assert_eq!(block_count(513), 2);
    assert_eq!(block_count(u64::MAX), u64::MAX / 512 + 1);
}

#[test]
fn attr_fills_fixed_fields() {
    let a = attr(3, FileKind::RegularFile, 1000);
    assert_eq!(
        a,
        Attr {
            ino: 3,
            size: 1000,
            blocks: 2,
            kind: FileKind::RegularFile,
            perm: 0o755,
            nlink: 1,
            uid: 501,
            gid: 20,
            rdev: 0,
            flags: 0,
            blksize: 512,
        }
    );
}

#[test]
fn file_data_by_inode() {
    assert_eq!(file_data(3), b"pub fn main() { println!(\"Hello\"); }");
    assert_eq!(file_data(4), b"// Loi file content");
    assert_eq!(file_data(5), b"// Tran file content");
    assert_eq!(file_data(6), b"");
    assert_eq!(file_data(1), b"");
}

#[test]
fn getattr_root_files_and_missing() {
    let fs = LoiFs;
    let root = fs.getattr(1).unwrap();
    assert_eq!(root.kind, FileKind::Directory);
    assert_eq!(root.size, 0);
    assert_eq!(root.blocks, 0);
    assert_eq!(root.perm, 0o755);
    let hello = fs.getattr(3).unwrap();
    assert_eq!(hello.kind, FileKind::RegularFile);
    assert_eq!(hello.size, 36);
    assert_eq!(hello.blocks, 1);
    assert_eq!(fs.getattr(4).unwrap().size, 19);
    assert_eq!(fs.getattr(5).unwrap().size, 20);
    assert_eq!(fs.getattr(2), Err(FsError::NotFound));
    assert_eq!(fs.getattr(6), Err(FsError::NotFound));
}

#[test]
fn readdir_lists_from_offset() {
    let fs = LoiFs;
    let all = fs.readdir(1, 0).unwrap();
    assert_eq!(
        names(&all),
        vec![
            (1, 1, FileKind::Directory, ".".to_string()),
            (1, 2, FileKind::Directory, "..".to_string()),
            (3, 3, FileKind::RegularFile, "hello.rs".to_string()),
            (4, 4, FileKind::RegularFile, "loi.rs".to_string()),
            (5, 5, FileKind::RegularFile, "tran.rs".to_string()),
        ]
    );
    let rest = fs.readdir(1, 3).unwrap();
    assert_eq!(
        names(&rest),
        vec![
            (4, 4, FileKind::RegularFile, "loi.rs".to_string()),
            (5, 5, FileKind::RegularFile, "tran.rs".to_string()),
        ]
    );
    assert!(fs.readdir(1, 5).unwrap().is_empty());
    assert!(fs.readdir(1, u64::MAX).unwrap().is_empty());
    assert!(matches!(fs.readdir(3, 0), Err(FsError::NotFound)));
}

#[test]
fn read_bounds() {
    let fs = LoiFs;
    assert_eq!(fs.read(3, 0, 4096).unwrap(), b"pub fn main() { println!(\"Hello\"); }".to_vec());
    assert_eq!(fs.read(4, 3, 3).unwrap(), b"Loi".to_vec());
    assert_eq!(fs.read(5, 15, 100).unwrap(), b"ntent".to_vec());
    assert_eq!(fs.read(5, 20, 100).unwrap(), Vec::<u8>::new());
    assert_eq!(fs.read(5, u64::MAX, u32::MAX).unwrap(), Vec::<u8>::new());
    assert_eq!(fs.read(4, 0, 0).unwrap(), Vec::<u8>::new());
    assert_eq!(fs.read(1, 0, 10), Err(FsError::NotFound));
    assert_eq!(fs.read(9, 0, 10), Err(FsError::NotFound));
}

#[test]
fn read_slice_cuts_at_end() {
    assert_eq!(read_slice(b"abcdef", 2, 2), b"cd".to_vec());
    assert_eq!(read_slice(b"abcdef", 4, 10), b"ef".to_vec());
    assert_eq!(read_slice(b"abcdef", 6, 1), Vec::<u8>::new());
}

#[test]
fn lookup_reports_fixed_sizes() {
    let fs = LoiFs;
    let h = fs.lookup(1, Some("hello.rs".to_string())).unwrap();
    assert_eq!(h.attr.ino, 3);
    assert_eq!(h.attr.size, 30);
    assert_eq!(h.attr.kind, FileKind::RegularFile);
    assert_eq!(h.generation, 1);
    let l = fs.lookup(1, Some("loi.rs".to_string())).unwrap();
    assert_eq!((l.attr.ino, l.attr.size), (4, 20));
    let t = fs.lookup(1, Some("tran.rs".to_string())).unwrap();
    assert_eq!((t.attr.ino, t.attr.size), (5, 20));
    assert_eq!(fs.lookup(1, Some("other.rs".to_string())), Err(FsError::NotFound));
    assert_eq!(fs.lookup(2, Some("hello.rs".to_string())), Err(FsError::NotFound));
    assert_eq!(fs.lookup(1, None), Err(FsError::NotFound));
}
