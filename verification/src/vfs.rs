//! The read-only projection file system with three fixed files, and the
//! types that both file systems hand to the FUSE layer.

use vstd::prelude::*;
use vstd::string::StringSliceAdditionalSpecFns;

pub mod vfs;

verus! {

/// The kind of an inode.
#[derive(Clone, Copy, Debug, PartialEq, Eq, Structural)]
pub enum FileKind {
    Directory,
    RegularFile,
}

/// The attributes reported for an inode (all but the timestamps, which the
/// FUSE layer fills in).
#[derive(Clone, Copy, Debug, PartialEq, Eq, Structural)]
pub struct Attr {
    pub ino: u64,
    pub size: u64,
    pub blocks: u64,
    pub kind: FileKind,
    pub perm: u16,
    pub nlink: u32,
    pub uid: u32,
    pub gid: u32,
    pub rdev: u32,
    pub flags: u32,
    pub blksize: u32,
}

/// The only error the file systems report: no such file or directory.
#[derive(Clone, Copy, Debug, PartialEq, Eq, Structural)]
pub enum FsError {
    NotFound,
}

/// The answer to a successful lookup or create.
#[derive(Clone, Copy, Debug, PartialEq, Eq, Structural)]
pub struct EntryReply {
    pub attr: Attr,
    pub generation: u64,
}

/// One line of a directory listing: the inode, the offset from which the
/// listing continues after this entry, the kind and the name.
#[derive(Debug)]
pub struct DirEntry {
    pub ino: u64,
    pub offset: u64,
    pub kind: FileKind,
    pub name: String,
}

impl DirEntry {
    pub open spec fn spec_tuple(&self) -> (u64, u64, FileKind, Seq<char>) {
        (self.ino, self.offset, self.kind, self.name@)
    }
}

/// The listing of `entries` from position `offset` on: entry `i` is reported
/// with the continuation offset `i + 1`.
pub open spec fn listing(entries: Seq<(u64, FileKind, Seq<char>)>, offset: int) -> Seq<
    (u64, u64, FileKind, Seq<char>),
> {
    if offset >= entries.len() {
        Seq::empty()
    } else {
        Seq::new(
            (entries.len() - offset) as nat,
            |j: int|
                (
                    entries[offset + j].0,
                    (offset + j + 1) as u64,
                    entries[offset + j].1,
                    entries[offset + j].2,
                ),
        )
    }
}

/// Number of 512-byte blocks that hold `size` bytes, rounded up.
pub open spec fn blocks_for(size: u64) -> int {
    (size + 511) / 512
}

/// The attributes of inode `ino` of the given kind, size and permission bits.
pub open spec fn file_attr(ino: u64, kind: FileKind, size: u64, perm: u16) -> Attr {
    Attr {
        ino,
        size,
        blocks: blocks_for(size) as u64,
        kind,
        perm,
        nlink: 1,
        uid: 501,
        gid: 20,
        rdev: 0,
        flags: 0,
        blksize: 512,
    }
}

/// The bytes that a read of `size` bytes at `offset` returns from `data`:
/// nothing at or past the end, else up to `size` bytes, cut at the end.
pub open spec fn read_range(data: Seq<u8>, offset: int, size: int) -> Seq<u8> {
    if offset >= data.len() {
        Seq::empty()
    } else if offset + size < data.len() {
        data.subrange(offset, offset + size)
    } else {
        data.subrange(offset, data.len() as int)
    }
}

/// The block count of `size` bytes, rounded up, computed without overflow.
pub fn block_count(size: u64) -> (b: u64)
    ensures
        b == blocks_for(size),
{
    let whole: u64 = size / 512;
    if size % 512 == 0 {
        whole
    } else {
        whole + 1
    }
}

/// Copies the bytes that a read of `size` bytes at `offset` returns.
pub fn read_slice(data: &[u8], offset: u64, size: u32) -> (out: Vec<u8>)
    ensures
        out@ == read_range(data@, offset as int, size as int),
{
    let len: usize = data.len();
    if offset >= len as u64 {
        Vec::new()
    } else {
        let start: usize = offset as usize;
        let end: usize = if (size as u64) < (len - start) as u64 {
            start + size as usize
        } else {
            len
        };
        vstd::slice::slice_to_vec(vstd::slice::slice_subrange(data, start, end))
    }
}

/// The attributes of the projection: every inode is reported with mode 0755.
pub fn attr(ino: u64, kind: FileKind, size: u64) -> (a: Attr)
    ensures
        a == file_attr(ino, kind, size, 0o755),
{
    Attr {
        ino,
        size,
        blocks: block_count(size),
        kind,
        perm: 0o755,
        nlink: 1,
        uid: 501,
        gid: 20,
        rdev: 0,
        flags: 0,
        blksize: 512,
    }
}


/// The contents of the three projected files, by inode.
pub open spec fn spec_file_data(ino: u64) -> Seq<u8> {
    if ino == 3 {
        "pub fn main() { println!(\"Hello\"); }".spec_bytes()
    } else if ino == 4 {
        "// Loi file content".spec_bytes()
    } else if ino == 5 {
        "// Tran file content".spec_bytes()
    } else {
        Seq::empty()
    }
}

/// The contents of projected file `ino`; empty for any other inode.
pub fn file_data(ino: u64) -> (data: &'static [u8])
    ensures
        data@ == spec_file_data(ino),
{
    if ino == 3 {
        "pub fn main() { println!(\"Hello\"); }".as_bytes()
    } else if ino == 4 {
        "// Loi file content".as_bytes()
    } else if ino == 5 {
        "// Tran file content".as_bytes()
    } else {
        &[]
    }
}

/// Whether `ino` is one of the three projected files.
pub open spec fn is_projected_file(ino: u64) -> bool {
    ino == 3 || ino == 4 || ino == 5
}

/// The root directory's listing: `.`, `..` and the three files.
pub open spec fn static_entries() -> Seq<(u64, FileKind, Seq<char>)> {
    seq![
        (1u64, FileKind::Directory, "."@),
        (1u64, FileKind::Directory, ".."@),
        (3u64, FileKind::RegularFile, "hello.rs"@),
        (4u64, FileKind::RegularFile, "loi.rs"@),
        (5u64, FileKind::RegularFile, "tran.rs"@),
    ]
}

/// The size that a lookup of a projected name reports, or `None` for any other name.
pub open spec fn static_lookup(name: Seq<char>) -> Option<(u64, u64)> {
    if name == "hello.rs"@ {
        Some((3u64, 30u64))
    } else if name == "loi.rs"@ {
        Some((4u64, 20u64))
    } else if name == "tran.rs"@ {
        Some((5u64, 20u64))
    } else {
        None
    }
}

/// The view of a listing table.
pub open spec fn table_view(t: Seq<(u64, FileKind, String)>) -> Seq<(u64, FileKind, Seq<char>)> {
    t.map_values(|e: (u64, FileKind, String)| (e.0, e.1, e.2@))
}

/// The entries of `table` from position `offset` on, each with the offset
/// from which a listing continues after it.
pub fn list_from(table: &Vec<(u64, FileKind, String)>, offset: u64) -> (out: Vec<DirEntry>)
    ensures
        out@.map_values(|e: DirEntry| e.spec_tuple()) == listing(table_view(table@), offset as int),
{
    let len: usize = table.len();
    let mut out: Vec<DirEntry> = Vec::new();
    let mut i: usize = if offset < len as u64 {
        offset as usize
    } else {
        len
    };
    let ghost start: int = i as int;
    while i < len
        invariant
            len == table@.len(),
            start == (if offset < len { offset as int } else { len as int }),
            start <= i <= len,
            out@.len() == i - start,
            forall|k: int|
                0 <= k < out@.len() ==> #[trigger] out@[k].spec_tuple() == (
                    table@[start + k].0,
                    (start + k + 1) as u64,
                    table@[start + k].1,
                    table@[start + k].2@,
                ),
        decreases len - i,
    {
        let e = DirEntry {
            ino: table[i].0,
            offset: (i + 1) as u64,
            kind: table[i].1,
            name: table[i].2.clone(),
        };
        out.push(e);
        i = i + 1;
    }
    assert(out@.map_values(|e: DirEntry| e.spec_tuple()) =~= listing(
        table_view(table@),
        offset as int,
    ));
    out
}

/// The read-only projection: a root directory (inode 1) holding
/// `hello.rs`, `loi.rs` and `tran.rs` (inodes 3, 4 and 5).
#[derive(Clone, Copy, Debug)]
pub struct LoiFs;

impl LoiFs {
    /// Attributes of an inode: the root is a directory of size 0, the
    /// projected files are regular files of their contents' length.
    pub fn getattr(&self, ino: u64) -> (r: Result<Attr, FsError>)
        ensures
            r == (if ino == 1 {
                Ok(file_attr(1, FileKind::Directory, 0, 0o755))
            } else if is_projected_file(ino) {
                Ok(file_attr(ino, FileKind::RegularFile, spec_file_data(ino).len() as u64, 0o755))
            } else {
                Err(FsError::NotFound)
            }),
    {
        let data = file_data(ino);
        if ino == 1 {
            Ok(attr(ino, FileKind::Directory, 0))
        } else if ino == 3 || ino == 4 || ino == 5 {
            Ok(attr(ino, FileKind::RegularFile, data.len() as u64))
        } else {
            Err(FsError::NotFound)
        }
    }

    /// The root directory's listing from `offset` on; any other inode is not found.
    pub fn readdir(&self, ino: u64, offset: u64) -> (r: Result<Vec<DirEntry>, FsError>)
        ensures
            ino != 1 ==> r == Err::<Vec<DirEntry>, FsError>(FsError::NotFound),
            ino == 1 ==> (r matches Ok(v) && v@.map_values(|e: DirEntry| e.spec_tuple())
                == listing(static_entries(), offset as int)),
    {
        if ino != 1 {
            return Err(FsError::NotFound);
        }
        let mut table: Vec<(u64, FileKind, String)> = Vec::new();
        table.push((1, FileKind::Directory, String::from_str(".")));
        table.push((1, FileKind::Directory, String::from_str("..")));
        table.push((3, FileKind::RegularFile, String::from_str("hello.rs")));
        table.push((4, FileKind::RegularFile, String::from_str("loi.rs")));
        table.push((5, FileKind::RegularFile, String::from_str("tran.rs")));
        assert(table_view(table@) =~= static_entries());
        Ok(list_from(&table, offset))
    }

    /// Reads up to `size` bytes at `offset` from a projected file.
    pub fn read(&self, ino: u64, offset: u64, size: u32) -> (r: Result<Vec<u8>, FsError>)
        ensures
            is_projected_file(ino) ==> (r matches Ok(v) && v@ == read_range(
                spec_file_data(ino),
                offset as int,
                size as int,
            )),
            !is_projected_file(ino) ==> r == Err::<Vec<u8>, FsError>(FsError::NotFound),
    {
        if ino == 3 || ino == 4 || ino == 5 {
            Ok(read_slice(file_data(ino), offset, size))
        } else {
            Err(FsError::NotFound)
        }
    }

    /// Looks a name up in the root directory; the reported sizes are fixed
    /// per name.
    pub fn lookup(&self, parent: u64, name: Option<String>) -> (r: Result<EntryReply, FsError>)
        ensures
            r == (match name {
                Some(n) => if parent == 1 {
                    match static_lookup(n@) {
                        Some((ino, size)) => Ok(
                            EntryReply {
                                attr: file_attr(ino, FileKind::RegularFile, size, 0o755),
                                generation: 1,
                            },
                        ),
                        None => Err(FsError::NotFound),
                    }
                } else {
                    Err(FsError::NotFound)
                },
                None => Err(FsError::NotFound),
            }),
    {
        if parent != 1 {
            return Err(FsError::NotFound);
        }
        match name {
            Some(n) => {
                if n == String::from_str("hello.rs") {
                    Ok(EntryReply { attr: attr(3, FileKind::RegularFile, 30), generation: 1 })
                } else if n == String::from_str("loi.rs") {
                    Ok(EntryReply { attr: attr(4, FileKind::RegularFile, 20), generation: 1 })
                } else if n == String::from_str("tran.rs") {
                    Ok(EntryReply { attr: attr(5, FileKind::RegularFile, 20), generation: 1 })
                } else {
                    Err(FsError::NotFound)
                }
            },
            None => Err(FsError::NotFound),
        }
    }
}


/// The reported block count covers the size, with less than one block to spare.
pub proof fn lemma_blocks_cover(size: u64)
    ensures
        blocks_for(size) * 512 >= size,
        blocks_for(size) * 512 < size + 512,
{
}

/// A listing resumed from the offset reported with an entry holds exactly
/// the entries after it, and a listing from offset 0 holds them all, each
/// with the offset that follows it.
pub proof fn lemma_listing_resumes(entries: Seq<(u64, FileKind, Seq<char>)>, k: int)
    requires
        0 <= k < entries.len(),
        entries.len() < u64::MAX,
    ensures
        listing(entries, 0).len() == entries.len(),
        listing(entries, 0)[k].1 == k + 1,
        listing(entries, listing(entries, 0)[k].1 as int) == listing(entries, 0).skip(k + 1),
{
    assert(listing(entries, (k + 1) as int) =~= listing(entries, 0).skip(k + 1));
}

/// The projection agrees with itself: every regular file its root lists is
/// found by a lookup of its name under the listed inode, and holds a file
/// whose attributes report the length of its contents.
pub proof fn lemma_static_listing_agrees(i: int)
    requires
        2 <= i < static_entries().len(),
    ensures
        static_entries()[i].1 == FileKind::RegularFile,
        static_lookup(static_entries()[i].2) matches Some((ino, _)) && ino == static_entries()[i].0,
        is_projected_file(static_entries()[i].0),
{
    reveal_strlit("hello.rs");
    reveal_strlit("loi.rs");
    reveal_strlit("tran.rs");
    assert("hello.rs"@.len() != "loi.rs"@.len());
    assert("hello.rs"@.len() != "tran.rs"@.len());
    assert("loi.rs"@.len() != "tran.rs"@.len());
}

/// Reading a file's whole length from offset 0 gives its whole contents.
pub proof fn lemma_read_whole(data: Seq<u8>)
    ensures
        read_range(data, 0, data.len() as int) == data,
{
    assert(read_range(data, 0, data.len() as int) =~= data);
}

} // verus!
