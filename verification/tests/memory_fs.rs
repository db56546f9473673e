use leviticus::vfs::vfs::{file_by_ino, files_table, LoiFs};
use leviticus::vfs::{FileKind, FsError};

fn listing(fs: &LoiFs) -> Vec<(u64, u64, FileKind, String)> {
    fs.readdir(1, 0)
        .unwrap()
        .iter()
        .map(|e| (e.ino, e.offset, e.kind, e.name.clone()))
        .collect()
}

fn s(x: &str) -> String {
    x.to_string()
}

#[test]
fn default_seeds_three_files() {
    let fs = LoiFs::default();
    assert_eq!(fs.next_ino(), 6);
    assert_eq!(fs.cwd(), "/Users/future/KB/project/app/loi/data");
    assert_eq!(fs.read(3, 0, 100).unwrap(), b"pub fn main() { println!(\"Hello\"); }".to_vec());
    assert_eq!(fs.read(4, 0, 100).unwrap(), b"// Loi file content".to_vec());
    assert_eq!(fs.read(5, 0, 100).unwrap(), b"// Tran file content".to_vec());
    assert_eq!(
        listing(&fs),
        vec![
            (1, 1, FileKind::Directory, s(".")),
            (1, 2, FileKind::Directory, s("..")),
            (3, 3, FileKind::RegularFile, s("hello.rs")),
            (4, 4, FileKind::RegularFile, s("loi.rs")),
            (5, 5, FileKind::RegularFile, s("tran.rs")),
        ]
    );
}

#[test]
fn getattr_uses_kind_permissions() {
    let fs = LoiFs::default();
    let root = fs.getattr(1).unwrap();
    assert_eq!((root.kind, root.size, root.perm), (FileKind::Directory, 0, 0o755));
    let f = fs.getattr(3).unwrap();
    assert_eq!((f.kind, f.size, f.perm, f.blocks), (FileKind::RegularFile, 36, 0o644, 1));
    assert_eq!(fs.getattr(2), Err(FsError::NotFound));
    assert_eq!(fs.getattr(6), Err(FsError::NotFound));
}

#[test]
fn lookup_ignores_parent_and_reports_size_zero() {
    let fs = LoiFs::default();
    let e = fs.lookup(1, &s("loi.rs")).unwrap();
    assert_eq!((e.attr.ino, e.attr.size, e.attr.perm, e.generation), (4, 0, 0o644, 0));
    let e = fs.lookup(42, &s("tran.rs")).unwrap();
    assert_eq!(e.attr.ino, 5);
    assert_eq!(fs.lookup(1, &s("missing")), Err(FsError::NotFound));
}

#[test]
fn readdir_other_inode_and_offsets() {
    let fs = LoiFs::default();
    assert!(matches!(fs.readdir(3, 0), Err(FsError::NotFound)));
    let tail = fs.readdir(1, 4).unwrap();
    assert_eq!(tail.len(), 1);
    assert_eq!((tail[0].ino, tail[0].offset, tail[0].name.as_str()), (5, 5, "tran.rs"));
    assert!(fs.readdir(1, 5).unwrap().is_empty());
}

#[test]
fn write_overwrites_in_place_and_reports_name() {
    let mut fs = LoiFs::default();
    let out = fs.write(4, 3, b"XYZ");
    assert_eq!(out.written, 3);
    assert_eq!(out.persist, Some((s("loi.rs"), b"// XYZ file content".to_vec())));
    assert_eq!(fs.read(4, 0, 100).unwrap(), b"// XYZ file content".to_vec());
    assert_eq!(fs.read(4, 3, 3).unwrap(), b"XYZ".to_vec());
    assert_eq!(fs.getattr(4).unwrap().size, 19);
}

#[test]
fn write_past_end_zero_fills() {
    let mut fs = LoiFs::default();
    let out = fs.write(5, 23, b"!!");
    assert_eq!(out.written, 2);
    let mut expected = b"// Tran file content".to_vec();
    expected.extend_from_slice(&[0, 0, 0, b'!', b'!']);
    assert_eq!(fs.read(5, 0, 100).unwrap(), expected);
    assert_eq!(fs.getattr(5).unwrap().size, 25);
}

#[test]
fn empty_write_past_end_extends_with_zeros() {
    let mut fs = LoiFs::default();
    let out = fs.write(4, 21, b"");
    assert_eq!(out.written, 0);
    assert_eq!(fs.getattr(4).unwrap().size, 21);
    assert_eq!(fs.read(4, 19, 5).unwrap(), vec![0, 0]);
}

#[test]
fn write_to_missing_inode_changes_nothing() {
    let mut fs = LoiFs::default();
    let out = fs.write(99, 0, b"data");
    assert_eq!(out.written, 4);
    assert_eq!(out.persist, None);
    assert_eq!(fs.getattr(99), Err(FsError::NotFound));
    assert_eq!(listing(&fs).len(), 5);
}

#[test]
fn create_binds_next_inode() {
    let mut fs = LoiFs::default();
    let e = fs.create(s("notes.md"));
    assert_eq!((e.attr.ino, e.attr.size, e.attr.kind, e.generation), (6, 0, FileKind::RegularFile, 1));
    assert_eq!(fs.next_ino(), 7);
    assert_eq!(fs.getattr(6).unwrap().size, 0);
    assert_eq!(fs.read(6, 0, 10).unwrap(), Vec::<u8>::new());
    assert_eq!(fs.lookup(1, &s("notes.md")).unwrap().attr.ino, 6);
    let l = listing(&fs);
    assert_eq!(l.last().unwrap(), &(6, 6, FileKind::RegularFile, s("notes.md")));
    let out = fs.write(6, 0, b"hi");
    assert_eq!(out.persist, Some((s("notes.md"), b"hi".to_vec())));
}

#[test]
fn create_existing_name_rebinds_it() {
    let mut fs = LoiFs::default();
    fs.create(s("hello.rs"));
    assert_eq!(fs.lookup(1, &s("hello.rs")).unwrap().attr.ino, 6);
    assert_eq!(fs.getattr(3).unwrap().size, 36);
    assert_eq!(listing(&fs).len(), 5);
    assert_eq!(fs.write(3, 0, b"x").persist, None);
}

#[test]
fn unlink_removes_name_and_file() {
    let mut fs = LoiFs::default();
    assert_eq!(fs.unlink(&s("hello.rs")), Ok(()));
    assert_eq!(fs.lookup(1, &s("hello.rs")), Err(FsError::NotFound));
    assert_eq!(fs.getattr(3), Err(FsError::NotFound));
    assert_eq!(fs.read(3, 0, 1), Err(FsError::NotFound));
    assert_eq!(listing(&fs).len(), 4);
    assert_eq!(fs.unlink(&s("hello.rs")), Err(FsError::NotFound));
}

#[test]
fn rename_moves_the_binding() {
    let mut fs = LoiFs::default();
    assert_eq!(fs.rename(&s("loi.rs"), s("law.rs")), Ok(()));
    assert_eq!(fs.lookup(1, &s("law.rs")).unwrap().attr.ino, 4);
    assert_eq!(fs.lookup(1, &s("loi.rs")), Err(FsError::NotFound));
    assert_eq!(fs.read(4, 0, 6).unwrap(), b"// Loi".to_vec());
    assert_eq!(fs.rename(&s("loi.rs"), s("x")), Err(FsError::NotFound));
}

#[test]
fn rename_onto_existing_name_replaces_it() {
    let mut fs = LoiFs::default();
    assert_eq!(fs.rename(&s("loi.rs"), s("tran.rs")), Ok(()));
    assert_eq!(fs.lookup(1, &s("tran.rs")).unwrap().attr.ino, 4);
    let l = listing(&fs);
    assert_eq!(l.len(), 4);
    assert_eq!(l.iter().filter(|e| e.3 == "tran.rs").count(), 1);
    assert_eq!(fs.getattr(5).unwrap().size, 20);
}

#[test]
fn rename_to_same_name_keeps_binding() {
    let mut fs = LoiFs::default();
    assert_eq!(fs.rename(&s("hello.rs"), s("hello.rs")), Ok(()));
    assert_eq!(fs.lookup(1, &s("hello.rs")).unwrap().attr.ino, 3);
    assert_eq!(listing(&fs).len(), 5);
}

#[test]
fn setattr_reports_empty_regular_file() {
    let fs = LoiFs::default();
    let a = fs.setattr(1);
    assert_eq!((a.ino, a.kind, a.size, a.perm, a.blocks), (1, FileKind::RegularFile, 0, 0o644, 0));
}

#[test]
fn load_numbers_entries_from_ten() {
    let entries = vec![(s("a.txt"), b"aa".to_vec()), (s("b.txt"), Vec::new())];
    let fs = LoiFs::load_from_entries(&entries);
    assert_eq!(fs.next_ino(), 12);
    assert_eq!(fs.cwd(), "/Users/future/KB/project/app/loi/data/{}");
    assert_eq!(fs.lookup(1, &s("a.txt")).unwrap().attr.ino, 10);
    assert_eq!(fs.lookup(1, &s("b.txt")).unwrap().attr.ino, 11);
    assert_eq!(fs.read(10, 0, 10).unwrap(), b"aa".to_vec());
    assert_eq!(fs.getattr(11).unwrap().size, 0);
    assert_eq!(fs.getattr(3), Err(FsError::NotFound));
    let e: Vec<String> = listing(&fs).into_iter().map(|x| x.3).collect();
    assert_eq!(e, vec![s("."), s(".."), s("a.txt"), s("b.txt")]);
}

#[test]
fn load_of_nothing_is_empty() {
    let fs = LoiFs::load_from_entries(&Vec::new());
    assert_eq!(fs.next_ino(), 10);
    assert_eq!(listing(&fs).len(), 2);
    let mut fs = fs;
    assert_eq!(fs.create(s("first")).attr.ino, 10);
}

#[test]
fn seeded_table_lookup() {
    assert_eq!(files_table().len(), 3);
    let f = file_by_ino(4).unwrap();
    assert_eq!((f.ino, f.name, f.data), (4, "loi.rs", &b"// Loi file content"[..]));
    assert_eq!(file_by_ino(5).unwrap().name, "tran.rs");
    assert!(file_by_ino(6).is_none());
    assert!(file_by_ino(0).is_none());
}

#[test]
fn read_after_write_gives_back_data() {
    let mut fs = LoiFs::default();
    fs.write(3, 10, b"abcdef");
    assert_eq!(fs.read(3, 10, 6).unwrap(), b"abcdef".to_vec());
    fs.write(3, 40, b"tail");
    assert_eq!(fs.read(3, 40, 4).unwrap(), b"tail".to_vec());
    assert_eq!(fs.read(3, 36, 4).unwrap(), vec![0, 0, 0, 0]);
}

#[test]
fn listing_resumes_after_each_entry() {
    let mut fs = LoiFs::default();
    fs.create(s("extra"));
    let all = fs.readdir(1, 0).unwrap();
    for (k, e) in all.iter().enumerate() {
        let rest = fs.readdir(1, e.offset).unwrap();
        let rest_names: Vec<String> = rest.iter().map(|x| x.name.clone()).collect();
        let expected: Vec<String> = all[k + 1..].iter().map(|x| x.name.clone()).collect();
        assert_eq!(rest_names, expected);
    }
}

#[test]
fn created_inodes_are_fresh_and_every_name_holds_a_file() {
    let mut fs = LoiFs::default();
    assert_eq!(fs.getattr(6), Err(FsError::NotFound));
    fs.create(s("a"));
    fs.create(s("b"));
    fs.rename(&s("a"), s("hello.rs")).unwrap();
    fs.unlink(&s("loi.rs")).unwrap();
    fs.write(7, 2, b"zz");
    for e in fs.readdir(1, 2).unwrap() {
        assert!(fs.getattr(e.ino).is_ok());
        assert!(e.ino > 1 && e.ino < fs.next_ino());
    }
    let inos: Vec<u64> = fs.readdir(1, 2).unwrap().iter().map(|e| e.ino).collect();
    let mut sorted = inos.clone();
    sorted.sort();
    sorted.dedup();
    assert_eq!(sorted.len(), inos.len());
}
