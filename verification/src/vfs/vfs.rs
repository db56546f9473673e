//! The writable in-memory file system: a flat root directory whose files
//! live in memory, keyed by inode, and whose names map to inodes.

use std::collections::HashMap;
use vstd::prelude::*;
use vstd::string::StringSliceAdditionalSpecFns;

use super::{
    block_count, blocks_for, file_attr, list_from, listing, read_range, read_slice, table_view, Attr,
    DirEntry, EntryReply, FileKind, FsError,
};

verus! {

// ----------------------------------------------------------------------------
// The name table: an ordered sequence of (name, inode) pairs, no name twice.
// ----------------------------------------------------------------------------

/// No name occurs twice in the table.
pub open spec fn names_unique(names: Seq<(Seq<char>, u64)>) -> bool {
    forall|i: int, j: int|
        0 <= i < names.len() && 0 <= j < names.len() && i != j ==> #[trigger] names[i].0
            != #[trigger] names[j].0
}

/// The table holds `name`.
pub open spec fn has_name(names: Seq<(Seq<char>, u64)>, name: Seq<char>) -> bool {
    exists|i: int| 0 <= i < names.len() && #[trigger] names[i].0 == name
}

/// A position of `name` in the table (meaningful when the table holds it).
pub open spec fn name_index(names: Seq<(Seq<char>, u64)>, name: Seq<char>) -> int {
    choose|i: int| 0 <= i < names.len() && #[trigger] names[i].0 == name
}

/// The table as a map from names to inodes.
pub open spec fn name_map(names: Seq<(Seq<char>, u64)>) -> Map<Seq<char>, u64> {
    Map::new(|n: Seq<char>| has_name(names, n), |n: Seq<char>| names[name_index(names, n)].1)
}

/// The table after `name` is bound to `ino`: an existing binding is replaced
/// in place, a new one is appended.
pub open spec fn names_set(names: Seq<(Seq<char>, u64)>, name: Seq<char>, ino: u64) -> Seq<
    (Seq<char>, u64),
> {
    if has_name(names, name) {
        names.update(name_index(names, name), (name, ino))
    } else {
        names.push((name, ino))
    }
}

/// The table after the binding of `name`, if any, is dropped.
pub open spec fn names_remove(names: Seq<(Seq<char>, u64)>, name: Seq<char>) -> Seq<
    (Seq<char>, u64),
> {
    if has_name(names, name) {
        names.remove(name_index(names, name))
    } else {
        names
    }
}

/// The first name in the table bound to `ino`.
pub open spec fn name_of(names: Seq<(Seq<char>, u64)>, ino: u64) -> Option<Seq<char>>
    decreases names.len(),
{
    if names.len() == 0 {
        None
    } else if names[0].1 == ino {
        Some(names[0].0)
    } else {
        name_of(names.drop_first(), ino)
    }
}

/// In a table without repeated names, the entry at `i` is what the map
/// gives for its name.
pub proof fn lemma_name_map_at(names: Seq<(Seq<char>, u64)>, i: int)
    requires
        names_unique(names),
        0 <= i < names.len(),
    ensures
        name_map(names).contains_key(names[i].0),
        name_map(names)[names[i].0] == names[i].1,
        name_index(names, names[i].0) == i,
{
    assert(has_name(names, names[i].0));
    let j = name_index(names, names[i].0);
    assert(names[j].0 == names[i].0);
}

/// Binding a name keeps the table free of repeats and binds it in the map.
pub proof fn lemma_names_set(names: Seq<(Seq<char>, u64)>, name: Seq<char>, ino: u64)
    requires
        names_unique(names),
    ensures
        names_unique(names_set(names, name, ino)),
        name_map(names_set(names, name, ino)) == name_map(names).insert(name, ino),
{
    let after = names_set(names, name, ino);
    if has_name(names, name) {
        let k = name_index(names, name);
        assert(names_unique(after));
        assert forall|n: Seq<char>| #[trigger] has_name(after, n) == (has_name(names, n) || n
            == name) by {
            if has_name(names, n) {
                let j = name_index(names, n);
                assert(after[j].0 == n);
            }
            if has_name(after, n) {
                let j = name_index(after, n);
                if j != k {
                    assert(names[j].0 == n);
                }
            }
        }
        assert forall|n: Seq<char>| has_name(after, n) implies name_map(after)[n] == name_map(
            names,
        ).insert(name, ino)[n] by {
            let j = name_index(after, n);
            lemma_name_map_at(after, j);
            if n != name {
                assert(names[j].0 == n);
                lemma_name_map_at(names, j);
            }
        }
        assert(name_map(after) =~= name_map(names).insert(name, ino));
    } else {
        assert(names_unique(after));
        assert forall|n: Seq<char>| #[trigger] has_name(after, n) == (has_name(names, n) || n
            == name) by {
            if has_name(names, n) {
                let j = name_index(names, n);
                assert(after[j].0 == n);
            }
            if n == name {
                assert(after[names.len() as int].0 == n);
            }
        }
        assert forall|n: Seq<char>| has_name(after, n) implies name_map(after)[n] == name_map(
            names,
        ).insert(name, ino)[n] by {
            let j = name_index(after, n);
            lemma_name_map_at(after, j);
            if n != name {
                assert(names[j].0 == n);
                lemma_name_map_at(names, j);
            }
        }
        assert(name_map(after) =~= name_map(names).insert(name, ino));
    }
}

/// Dropping a name keeps the table free of repeats and drops it from the map.
pub proof fn lemma_names_remove(names: Seq<(Seq<char>, u64)>, name: Seq<char>)
    requires
        names_unique(names),
    ensures
        names_unique(names_remove(names, name)),
        name_map(names_remove(names, name)) == name_map(names).remove(name),
{
    let after = names_remove(names, name);
    if has_name(names, name) {
        let k = name_index(names, name);
        assert(names_unique(after)) by {
            assert forall|i: int, j: int|
                0 <= i < after.len() && 0 <= j < after.len() && i != j implies #[trigger] after[i].0
                != #[trigger] after[j].0 by {
                let oi = if i < k {
                    i
                } else {
                    i + 1
                };
                let oj = if j < k {
                    j
                } else {
                    j + 1
                };
                assert(after[i] == names[oi]);
                assert(after[j] == names[oj]);
            }
        }
        assert forall|n: Seq<char>| #[trigger] has_name(after, n) == (has_name(names, n) && n
            != name) by {
            if has_name(names, n) && n != name {
                let j = name_index(names, n);
                if j < k {
                    assert(after[j].0 == n);
                } else {
                    assert(j != k);
                    assert(after[j - 1].0 == n);
                }
            }
            if has_name(after, n) {
                let j = name_index(after, n);
                let oj = if j < k {
                    j
                } else {
                    j + 1
                };
                assert(names[oj].0 == n);
                assert(oj != k);
            }
        }
        assert forall|n: Seq<char>| has_name(after, n) implies name_map(after)[n] == name_map(
            names,
        )[n] by {
            let j = name_index(after, n);
            lemma_name_map_at(after, j);
            let oj = if j < k {
                j
            } else {
                j + 1
            };
            assert(names[oj] == after[j]);
            lemma_name_map_at(names, oj);
        }
        assert(name_map(after) =~= name_map(names).remove(name));
    } else {
        assert(name_map(after) =~= name_map(names).remove(name));
    }
}


// ----------------------------------------------------------------------------
// Attributes and the seeded files
// ----------------------------------------------------------------------------

/// Permission bits by kind: directories 0755, regular files 0644.
pub open spec fn perm_for(kind: FileKind) -> u16 {
    match kind {
        FileKind::Directory => 0o755,
        FileKind::RegularFile => 0o644,
    }
}

/// The attributes of inode `ino`, with the permission bits of its kind.
pub open spec fn node_attr(ino: u64, kind: FileKind, size: u64) -> Attr {
    file_attr(ino, kind, size, perm_for(kind))
}

/// The attributes of inode `ino` of the given kind and size, with the
/// permission bits of its kind.
pub fn attr(ino: u64, kind: FileKind, size: u64) -> (a: Attr)
    ensures
        a == node_attr(ino, kind, size),
{
    let perm: u16 = match kind {
        FileKind::Directory => 0o755,
        FileKind::RegularFile => 0o644,
    };
    Attr {
        ino,
        size,
        blocks: block_count(size),
        kind,
        perm,
        nlink: 1,
        uid: 501,
        gid: 20,
        rdev: 0,
        flags: 0,
        blksize: 512,
    }
}

/// A file that a fresh file system starts with.
#[derive(Clone, Copy, Debug)]
pub struct FileNode {
    pub ino: u64,
    pub name: &'static str,
    pub data: &'static [u8],
}

impl FileNode {
    pub open spec fn spec_tuple(&self) -> (u64, Seq<char>, Seq<u8>) {
        (self.ino, self.name@, self.data@)
    }
}

/// The view of a table of files.
pub open spec fn seeds_view(t: Seq<FileNode>) -> Seq<(u64, Seq<char>, Seq<u8>)> {
    t.map_values(|f: FileNode| f.spec_tuple())
}

/// The files a fresh file system starts with, in order.
pub open spec fn seed_files() -> Seq<(u64, Seq<char>, Seq<u8>)> {
    seq![
        (3u64, "hello.rs"@, "pub fn main() { println!(\"Hello\"); }".spec_bytes()),
        (4u64, "loi.rs"@, "// Loi file content".spec_bytes()),
        (5u64, "tran.rs"@, "// Tran file content".spec_bytes()),
    ]
}

/// The table of seeded files.
pub fn files_table() -> (t: Vec<FileNode>)
    ensures
        seeds_view(t@) == seed_files(),
{
    let mut t: Vec<FileNode> = Vec::new();
    t.push(
        FileNode {
            ino: 3,
            name: "hello.rs",
            data: "pub fn main() { println!(\"Hello\"); }".as_bytes(),
        },
    );
    t.push(FileNode { ino: 4, name: "loi.rs", data: "// Loi file content".as_bytes() });
    t.push(FileNode { ino: 5, name: "tran.rs", data: "// Tran file content".as_bytes() });
    assert(seeds_view(t@) =~= seed_files());
    t
}

/// The first seeded file with inode `ino`.
pub open spec fn seed_by_ino(ino: u64) -> Option<(u64, Seq<char>, Seq<u8>)> {
    if ino == 3 {
        Some(seed_files()[0])
    } else if ino == 4 {
        Some(seed_files()[1])
    } else if ino == 5 {
        Some(seed_files()[2])
    } else {
        None
    }
}

/// Finds the seeded file with inode `ino`.
pub fn file_by_ino(ino: u64) -> (r: Option<FileNode>)
    ensures
        r matches Some(f) ==> seed_by_ino(ino) == Some(f.spec_tuple()),
        r is None ==> seed_by_ino(ino) is None,
{
    let t = files_table();
    assert(seeds_view(t@).len() == seed_files().len());
    let mut i: usize = 0;
    while i < t.len()
        invariant
            seeds_view(t@) == seed_files(),
            t@.len() == 3,
            0 <= i <= t@.len(),
            forall|k: int| 0 <= k < i ==> #[trigger] t@[k].ino != ino,
        decreases t@.len() - i,
    {
        assert(seeds_view(t@)[i as int] == t@[i as int].spec_tuple());
        if t[i].ino == ino {
            assert(seed_files()[0].0 == 3 && seed_files()[1].0 == 4 && seed_files()[2].0 == 5);
            return Some(t[i]);
        }
        i = i + 1;
    }
    assert(seeds_view(t@)[0] == t@[0].spec_tuple());
    assert(seeds_view(t@)[1] == t@[1].spec_tuple());
    assert(seeds_view(t@)[2] == t@[2].spec_tuple());
    None
}

// ----------------------------------------------------------------------------
// The file system
// ----------------------------------------------------------------------------

/// Every name of the table as a listing entry of a regular file.
pub open spec fn name_entries(names: Seq<(Seq<char>, u64)>) -> Seq<(u64, FileKind, Seq<char>)> {
    names.map_values(|p: (Seq<char>, u64)| (p.1, FileKind::RegularFile, p.0))
}

/// The contents of a file after `data` is written at `offset`: bytes past
/// the old end and before `offset` read as zero.
pub open spec fn patched(old: Seq<u8>, offset: int, data: Seq<u8>) -> Seq<u8> {
    let end = offset + data.len();
    let len = if end > old.len() {
        end
    } else {
        old.len() as int
    };
    Seq::new(
        len as nat,
        |i: int|
            if offset <= i < end {
                data[i - offset]
            } else if i < old.len() {
                old[i]
            } else {
                0u8
            },
    )
}

/// The inode after `ino`, wrapping at the top of the range.
pub open spec fn next_inode(ino: u64) -> u64 {
    if ino == u64::MAX {
        0
    } else {
        (ino + 1) as u64
    }
}

/// The state after `data` is written at `offset` into the file of `ino`;
/// unchanged where no file is stored under `ino`.
pub open spec fn after_write(v: FsView, ino: u64, offset: int, data: Seq<u8>) -> FsView {
    if v.files.contains_key(ino) {
        FsView { files: v.files.insert(ino, patched(v.files[ino], offset, data)), ..v }
    } else {
        v
    }
}

/// The state after a file named `name` is created: it gets the next inode
/// and empty contents, and the next inode advances.
pub open spec fn after_create(v: FsView, name: Seq<char>) -> FsView {
    FsView {
        next_ino: next_inode(v.next_ino),
        files: v.files.insert(v.next_ino, Seq::empty()),
        names: names_set(v.names, name, v.next_ino),
        ..v
    }
}

/// The state after `name` is unlinked: the name and the file of its inode
/// are gone; unchanged where the name is not bound.
pub open spec fn after_unlink(v: FsView, name: Seq<char>) -> FsView {
    if name_map(v.names).contains_key(name) {
        FsView {
            files: v.files.remove(name_map(v.names)[name]),
            names: names_remove(v.names, name),
            ..v
        }
    } else {
        v
    }
}

/// The state after `name` is renamed to `newname`: the inode is bound to
/// the new name instead; unchanged where `name` is not bound.
pub open spec fn after_rename(v: FsView, name: Seq<char>, newname: Seq<char>) -> FsView {
    if name_map(v.names).contains_key(name) {
        FsView {
            names: names_set(names_remove(v.names, name), newname, name_map(v.names)[name]),
            ..v
        }
    } else {
        v
    }
}

/// What a write reports: the count of bytes taken, and the name and new
/// contents of the file to mirror to disk, if it has a name.
#[derive(Debug)]
pub struct WriteOutcome {
    pub written: u32,
    pub persist: Option<(String, Vec<u8>)>,
}

impl WriteOutcome {
    pub open spec fn persist_view(&self) -> Option<(Seq<char>, Seq<u8>)> {
        match self.persist {
            Some(p) => Some((p.0@, p.1@)),
            None => None,
        }
    }
}

/// The files of `t`, each under its inode, later entries replacing earlier ones.
pub open spec fn seed_map(t: Seq<(u64, Seq<char>, Seq<u8>)>) -> Map<u64, Seq<u8>>
    decreases t.len(),
{
    if t.len() == 0 {
        Map::empty()
    } else {
        seed_map(t.drop_last()).insert(t.last().0, t.last().2)
    }
}

/// The name table after binding the names of `t` in order.
pub open spec fn seed_names(t: Seq<(u64, Seq<char>, Seq<u8>)>) -> Seq<(Seq<char>, u64)>
    decreases t.len(),
{
    if t.len() == 0 {
        Seq::empty()
    } else {
        names_set(seed_names(t.drop_last()), t.last().1, t.last().0)
    }
}

/// The first inode above every inode of `t`, and at least 1.
pub open spec fn seed_next(t: Seq<(u64, Seq<char>, Seq<u8>)>) -> u64
    decreases t.len(),
{
    if t.len() == 0 {
        1
    } else if t.last().0 >= seed_next(t.drop_last()) {
        (t.last().0 + 1) as u64
    } else {
        seed_next(t.drop_last())
    }
}

/// The state of a fresh file system: the seeded files under inodes 3, 4 and
/// 5, named `hello.rs`, `loi.rs` and `tran.rs`, with inode 6 next.
pub open spec fn default_view() -> FsView {
    FsView {
        cwd: "/Users/future/KB/project/app/loi/data"@,
        next_ino: 6,
        files: Map::empty().insert(3u64, seed_files()[0].2).insert(4u64, seed_files()[1].2).insert(
            5u64,
            seed_files()[2].2,
        ),
        names: seq![("hello.rs"@, 3u64), ("loi.rs"@, 4u64), ("tran.rs"@, 5u64)],
    }
}

/// The files of a directory read from disk: entry `i` under inode `10 + i`.
pub open spec fn loaded_files(entries: Seq<(Seq<char>, Seq<u8>)>) -> Map<u64, Seq<u8>> {
    Map::new(|k: u64| 10 <= k < 10 + entries.len(), |k: u64| entries[k - 10].1)
}

/// The name table after binding the name of entry `i` to inode `10 + i`, in order.
pub open spec fn loaded_names(entries: Seq<(Seq<char>, Seq<u8>)>) -> Seq<(Seq<char>, u64)>
    decreases entries.len(),
{
    if entries.len() == 0 {
        Seq::empty()
    } else {
        names_set(
            loaded_names(entries.drop_last()),
            entries.last().0,
            (10 + entries.len() - 1) as u64,
        )
    }
}

/// The state of a file system over a directory read from disk.
pub open spec fn loaded_view(entries: Seq<(Seq<char>, Seq<u8>)>) -> FsView {
    FsView {
        cwd: "/Users/future/KB/project/app/loi/data/{}"@,
        next_ino: (10 + entries.len()) as u64,
        files: loaded_files(entries),
        names: loaded_names(entries),
    }
}

/// The view of a list of directory entries read from disk.
pub open spec fn entries_view(entries: Seq<(String, Vec<u8>)>) -> Seq<(Seq<char>, Seq<u8>)> {
    entries.map_values(|e: (String, Vec<u8>)| (e.0@, e.1@))
}

/// What a file system holds, as mathematical values.
pub struct FsView {
    /// The directory on disk that changes are mirrored to.
    pub cwd: Seq<char>,
    /// The inode that the next created file gets.
    pub next_ino: u64,
    /// File contents by inode.
    pub files: Map<u64, Seq<u8>>,
    /// The root directory's names with their inodes, in listing order.
    pub names: Seq<(Seq<char>, u64)>,
}

impl FsView {
    /// The view is well formed: no name is listed twice.
    pub open spec fn wf(self) -> bool {
        names_unique(self.names)
    }

    /// The root directory's names as a map to inodes.
    pub open spec fn name_map(self) -> Map<Seq<char>, u64> {
        name_map(self.names)
    }

    /// The state is consistent: no name is listed twice, no inode is bound
    /// to two names, every bound inode holds a file, and every stored inode
    /// lies above the root's and below the next inode to be given out.
    pub open spec fn consistent(self) -> bool {
        &&& self.wf()
        &&& self.next_ino >= 2
        &&& forall|n: Seq<char>| #[trigger]
            self.name_map().contains_key(n) ==> self.files.contains_key(self.name_map()[n])
        &&& forall|a: Seq<char>, b: Seq<char>|
            self.name_map().contains_key(a) && self.name_map().contains_key(b) && a != b
                ==> #[trigger] self.name_map()[a] != #[trigger] self.name_map()[b]
        &&& forall|k: u64| #[trigger] self.files.contains_key(k) ==> 1 < k < self.next_ino
    }

    /// The root directory's listing: `.`, `..`, then every name as a regular file.
    pub open spec fn entries(self) -> Seq<(u64, FileKind, Seq<char>)> {
        seq![(1u64, FileKind::Directory, "."@), (1u64, FileKind::Directory, ".."@)]
            + name_entries(self.names)
    }
}

/// The in-memory file system.
#[derive(Debug)]
pub struct LoiFs {
    cwd: String,
    next_ino: u64,
    files: HashMap<u64, Vec<u8>>,
    filenames: Vec<(String, u64)>,
}

/// The view of a name table.
pub open spec fn names_view(t: Seq<(String, u64)>) -> Seq<(Seq<char>, u64)> {
    t.map_values(|p: (String, u64)| (p.0@, p.1))
}

/// The view of a file table.
pub open spec fn files_view(m: Map<u64, Vec<u8>>) -> Map<u64, Seq<u8>> {
    m.map_values(|v: Vec<u8>| v@)
}

impl View for LoiFs {
    type V = FsView;

    closed spec fn view(&self) -> FsView {
        FsView {
            cwd: self.cwd@,
            next_ino: self.next_ino,
            files: files_view(self.files@),
            names: names_view(self.filenames@),
        }
    }
}

impl LoiFs {
    /// The directory on disk that changes are mirrored to.
    pub fn cwd(&self) -> (r: &String)
        ensures
            r@ == self@.cwd,
    {
        &self.cwd
    }

    /// The inode that the next created file gets.
    pub fn next_ino(&self) -> (r: u64)
        ensures
            r == self@.next_ino,
    {
        self.next_ino
    }

    fn find_name(&self, name: &String) -> (r: Option<usize>)
        requires
            self@.wf(),
        ensures
            r matches Some(i) ==> i < self@.names.len() && self@.names[i as int].0 == name@
                && name_index(self@.names, name@) == i,
            r is None ==> !has_name(self@.names, name@),
    {
        let mut i: usize = 0;
        while i < self.filenames.len()
            invariant
                0 <= i <= self.filenames@.len(),
                self@.wf(),
                forall|k: int| 0 <= k < i ==> #[trigger] self.filenames@[k].0@ != name@,
            decreases self.filenames@.len() - i,
        {
            assert(self@.names[i as int] == (self.filenames@[i as int].0@, self.filenames@[i as int].1));
            if self.filenames[i].0 == *name {
                proof {
                    lemma_name_map_at(self@.names, i as int);
                }
                return Some(i);
            }
            i = i + 1;
        }
        assert forall|k: int| 0 <= k < self@.names.len() implies #[trigger] self@.names[k].0
            != name@ by {
            assert(self.filenames@[k].0@ == self@.names[k].0);
        }
        None
    }

    fn set_name(&mut self, name: String, ino: u64)
        requires
            old(self)@.wf(),
        ensures
            final(self)@ == (FsView { names: names_set(old(self)@.names, name@, ino), ..old(self)@ }),
            final(self)@.wf(),
            final(self)@.name_map() == old(self)@.name_map().insert(name@, ino),
    {
        proof {
            lemma_names_set(self@.names, name@, ino);
        }
        let found = self.find_name(&name);
        let ghost n = name@;
        match found {
            Some(i) => {
                self.filenames.set(i, (name, ino));
                assert(names_view(self.filenames@) =~= names_set(old(self)@.names, n, ino));
            },
            None => {
                self.filenames.push((name, ino));
                assert(names_view(self.filenames@) =~= names_set(old(self)@.names, n, ino));
            },
        }
    }

    fn take_name(&mut self, name: &String) -> (r: Option<u64>)
        requires
            old(self)@.wf(),
        ensures
            final(self)@ == (FsView { names: names_remove(old(self)@.names, name@), ..old(self)@ }),
            final(self)@.wf(),
            final(self)@.name_map() == old(self)@.name_map().remove(name@),
            r == (if old(self)@.name_map().contains_key(name@) {
                Some(old(self)@.name_map()[name@])
            } else {
                None::<u64>
            }),
    {
        proof {
            lemma_names_remove(self@.names, name@);
        }
        match self.find_name(name) {
            Some(i) => {
                let (_, ino) = self.filenames.remove(i);
                proof {
                    lemma_name_map_at(old(self)@.names, i as int);
                }
                assert(names_view(self.filenames@) =~= names_remove(old(self)@.names, name@));
                Some(ino)
            },
            None => None,
        }
    }

    /// Attributes of an inode: the root is a directory of size 0, a stored
    /// file is a regular file of its contents' length.
    pub fn getattr(&self, ino: u64) -> (r: Result<Attr, FsError>)
        ensures
            r == (if ino == 1 {
                Ok(node_attr(1, FileKind::Directory, 0))
            } else if self@.files.contains_key(ino) {
                Ok(node_attr(ino, FileKind::RegularFile, self@.files[ino].len() as u64))
            } else {
                Err(FsError::NotFound)
            }),
    {
        if ino == 1 {
            Ok(attr(ino, FileKind::Directory, 0))
        } else {
            match self.files.get(&ino) {
                Some(data) => Ok(attr(ino, FileKind::RegularFile, data.len() as u64)),
                None => Err(FsError::NotFound),
            }
        }
    }

    /// The root directory's listing from `offset` on; any other inode is not found.
    pub fn readdir(&self, ino: u64, offset: u64) -> (r: Result<Vec<DirEntry>, FsError>)
        ensures
            ino != 1 ==> r == Err::<Vec<DirEntry>, FsError>(FsError::NotFound),
            ino == 1 ==> (r matches Ok(v) && v@.map_values(|e: DirEntry| e.spec_tuple())
                == listing(self@.entries(), offset as int)),
    {
        if ino != 1 {
            return Err(FsError::NotFound);
        }
        let mut table: Vec<(u64, FileKind, String)> = Vec::new();
        table.push((1, FileKind::Directory, String::from_str(".")));
        table.push((1, FileKind::Directory, String::from_str("..")));
        let mut i: usize = 0;
        while i < self.filenames.len()
            invariant
                0 <= i <= self.filenames@.len(),
                table_view(table@) == seq![
                    (1u64, FileKind::Directory, "."@),
                    (1u64, FileKind::Directory, ".."@),
                ] + name_entries(self@.names.take(i as int)),
            decreases self.filenames@.len() - i,
        {
            let ghost prev = table_view(table@);
            assert(self@.names[i as int] == (self.filenames@[i as int].0@, self.filenames@[i as int].1));
            table.push((self.filenames[i].1, FileKind::RegularFile, self.filenames[i].0.clone()));
            assert(table_view(table@) =~= prev.push(
                (self@.names[i as int].1, FileKind::RegularFile, self@.names[i as int].0),
            ));
            assert(self@.names.take(i + 1) =~= self@.names.take(i as int).push(self@.names[i as int]));
            assert(name_entries(self@.names.take(i + 1)) =~= name_entries(
                self@.names.take(i as int),
            ).push((self@.names[i as int].1, FileKind::RegularFile, self@.names[i as int].0)));
            i = i + 1;
        }
        assert(self@.names.take(i as int) =~= self@.names);
        Ok(list_from(&table, offset))
    }

    /// Reads up to `size` bytes at `offset` from a stored file.
    pub fn read(&self, ino: u64, offset: u64, size: u32) -> (r: Result<Vec<u8>, FsError>)
        ensures
            self@.files.contains_key(ino) ==> (r matches Ok(v) && v@ == read_range(
                self@.files[ino],
                offset as int,
                size as int,
            )),
            !self@.files.contains_key(ino) ==> r == Err::<Vec<u8>, FsError>(FsError::NotFound),
    {
        match self.files.get(&ino) {
            Some(data) => Ok(read_slice(data.as_slice(), offset, size)),
            None => Err(FsError::NotFound),
        }
    }

    /// Looks a name up in the root directory, whatever the parent inode; the
    /// attributes report a regular file of size 0.
    pub fn lookup(&self, parent: u64, name: &String) -> (r: Result<EntryReply, FsError>)
        requires
            self@.wf(),
        ensures
            r == (if self@.name_map().contains_key(name@) {
                Ok(
                    EntryReply {
                        attr: node_attr(self@.name_map()[name@], FileKind::RegularFile, 0),
                        generation: 0,
                    },
                )
            } else {
                Err(FsError::NotFound)
            }),
    {
        match self.find_name(name) {
            Some(i) => {
                proof {
                    lemma_name_map_at(self@.names, i as int);
                }
                let ino = self.filenames[i].1;
                Ok(EntryReply { attr: attr(ino, FileKind::RegularFile, 0), generation: 0 })
            },
            None => Err(FsError::NotFound),
        }
    }

    /// The attributes reported after a change of attributes: a regular file
    /// of size 0, whatever the inode.
    pub fn setattr(&self, ino: u64) -> (a: Attr)
        ensures
            a == node_attr(ino, FileKind::RegularFile, 0),
    {
        attr(ino, FileKind::RegularFile, 0)
    }

    fn name_for(&self, ino: u64) -> (r: Option<String>)
        ensures
            (match r {
                Some(n) => Some(n@),
                None => None::<Seq<char>>,
            }) == name_of(self@.names, ino),
    {
        let mut i: usize = 0;
        assert(self@.names.skip(0) =~= self@.names);
        while i < self.filenames.len()
            invariant
                0 <= i <= self.filenames@.len(),
                self@.names.len() == self.filenames@.len(),
                name_of(self@.names, ino) == name_of(self@.names.skip(i as int), ino),
            decreases self.filenames@.len() - i,
        {
            assert(self@.names[i as int] == (self.filenames@[i as int].0@, self.filenames@[i as int].1));
            assert(self@.names.skip(i as int)[0] == self@.names[i as int]);
            if self.filenames[i].1 == ino {
                return Some(self.filenames[i].0.clone());
            }
            assert(self@.names.skip(i as int).drop_first() =~= self@.names.skip(i + 1));
            i = i + 1;
        }
        None
    }

    /// Writes `data` at `offset` into a stored file, zero-filling any gap past
    /// its end; a write to an inode that holds no file changes nothing. The
    /// outcome reports `data`'s length, as a 32-bit count, and, where a name
    /// is bound to the inode, the first such name and the file's new contents
    /// for mirroring to disk.
    pub fn write(&mut self, ino: u64, offset: u64, data: &[u8]) -> (out: WriteOutcome)
        requires
            old(self)@.wf(),
            old(self)@.files.contains_key(ino) ==> offset + data@.len() <= usize::MAX,
        ensures
            final(self)@.wf(),
            final(self)@ == after_write(old(self)@, ino, offset as int, data@),
            out.written == data@.len() as u32,
            out.persist_view() == (if old(self)@.files.contains_key(ino) && name_of(
                old(self)@.names,
                ino,
            ) is Some {
                Some((name_of(old(self)@.names, ino)->0, final(self)@.files[ino]))
            } else {
                None
            }),
    {
        let data_len: usize = data.len();
        let written: u32 = data_len as u32;
        let ghost old_files = self.files@;
        let mut content: Vec<u8> = match self.files.remove(&ino) {
            Some(c) => c,
            None => {
                assert(self.files@ =~= old_files);
                return WriteOutcome { written, persist: None };
            },
        };
        let ghost before: Seq<u8> = content@;
        let start: usize = offset as usize;
        let end: usize = start + data_len;
        if end > content.len() {
            content.resize(end, 0u8);
        }
        let ghost target = patched(before, start as int, data@);
        let mut j: usize = 0;
        while j < data_len
            invariant
                data_len == data@.len(),
                start + data_len == end,
                end <= content@.len(),
                content@.len() == target.len(),
                target == patched(before, start as int, data@),
                0 <= j <= data_len,
                forall|i: int|
                    0 <= i < content@.len() ==> #[trigger] content@[i] == (if start <= i < start
                        + j {
                        data@[i - start]
                    } else if i < before.len() {
                        before[i]
                    } else {
                        0u8
                    }),
            decreases data_len - j,
        {
            content.set(start + j, data[j]);
            j = j + 1;
        }
        assert(content@ =~= target);
        let copy: Vec<u8> = vstd::slice::slice_to_vec(content.as_slice());
        let persist = match self.name_for(ino) {
            Some(n) => Some((n, copy)),
            None => None,
        };
        self.files.insert(ino, content);
        assert(files_view(self.files@) =~= files_view(old_files).insert(ino, target));
        WriteOutcome { written, persist }
    }

    /// Creates a regular file named `name` with the next inode, which then
    /// advances (wrapping at the top of the range); an existing binding of the
    /// name is replaced, and any file already stored under that inode is
    /// emptied.
    pub fn create(&mut self, name: String) -> (out: EntryReply)
        requires
            old(self)@.wf(),
        ensures
            final(self)@.wf(),
            final(self)@ == after_create(old(self)@, name@),
            out == (EntryReply {
                attr: node_attr(old(self)@.next_ino, FileKind::RegularFile, 0),
                generation: 1,
            }),
    {
        let ino: u64 = self.next_ino;
        self.next_ino = if ino == u64::MAX {
            0
        } else {
            ino + 1
        };
        self.set_name(name, ino);
        let ghost mid = self.files@;
        self.files.insert(ino, Vec::new());
        assert(files_view(self.files@) =~= files_view(mid).insert(ino, Seq::empty()));
        EntryReply { attr: attr(ino, FileKind::RegularFile, 0), generation: 1 }
    }

    /// Removes the name `name` and the file of the inode it was bound to.
    pub fn unlink(&mut self, name: &String) -> (r: Result<(), FsError>)
        requires
            old(self)@.wf(),
        ensures
            final(self)@.wf(),
            final(self)@ == after_unlink(old(self)@, name@),
            r == (if old(self)@.name_map().contains_key(name@) {
                Ok(())
            } else {
                Err(FsError::NotFound)
            }),
    {
        match self.take_name(name) {
            Some(ino) => {
                let ghost mid = self.files@;
                self.files.remove(&ino);
                assert(files_view(self.files@) =~= files_view(mid).remove(ino));
                Ok(())
            },
            None => {
                assert(names_remove(old(self)@.names, name@) == old(self)@.names);
                Err(FsError::NotFound)
            },
        }
    }

    /// Binds the inode of `name` to `newname` instead; an existing binding of
    /// `newname` is replaced. The files are untouched.
    pub fn rename(&mut self, name: &String, newname: String) -> (r: Result<(), FsError>)
        requires
            old(self)@.wf(),
        ensures
            final(self)@.wf(),
            final(self)@ == after_rename(old(self)@, name@, newname@),
            r == (if old(self)@.name_map().contains_key(name@) {
                Ok(())
            } else {
                Err(FsError::NotFound)
            }),
    {
        match self.take_name(name) {
            Some(ino) => {
                self.set_name(newname, ino);
                Ok(())
            },
            None => {
                assert(names_remove(old(self)@.names, name@) == old(self)@.names);
                Err(FsError::NotFound)
            },
        }
    }

    /// A file system over the files of a directory read from disk: entry `i`
    /// gets inode `10 + i` and its name is bound to it, later entries
    /// replacing earlier ones of the same name; the next inode follows the
    /// last one given.
    pub fn load_from_entries(entries: &Vec<(String, Vec<u8>)>) -> (fs: LoiFs)
        requires
            entries@.len() + 10 <= u64::MAX,
        ensures
            fs@.wf(),
            fs@ == loaded_view(entries_view(entries@)),
    {
        let mut fs = LoiFs {
            cwd: String::from_str("/Users/future/KB/project/app/loi/data/{}"),
            next_ino: 10,
            files: HashMap::new(),
            filenames: Vec::new(),
        };
        let ghost ev = entries_view(entries@);
        let mut ino_counter: u64 = 10;
        let mut i: usize = 0;
        assert(ev.take(0) =~= Seq::<(Seq<char>, Seq<u8>)>::empty());
        assert(files_view(fs.files@) =~= loaded_files(ev.take(0)));
        while i < entries.len()
            invariant
                ev == entries_view(entries@),
                entries@.len() + 10 <= u64::MAX,
                0 <= i <= entries@.len(),
                ino_counter == 10 + i,
                fs@.wf(),
                fs@.cwd == "/Users/future/KB/project/app/loi/data/{}"@,
                fs@.next_ino == 10,
                fs@.files == loaded_files(ev.take(i as int)),
                fs@.names == loaded_names(ev.take(i as int)),
            decreases entries@.len() - i,
        {
            assert(ev[i as int] == (entries@[i as int].0@, entries@[i as int].1@));
            let content: Vec<u8> = vstd::slice::slice_to_vec(entries[i].1.as_slice());
            let ghost mid = fs.files@;
            let ghost cv = content@;
            assert(cv == ev[i as int].1);
            fs.files.insert(ino_counter, content);
            assert(fs.files@ == mid.insert(ino_counter, content));
            assert(ev.take(i + 1).drop_last() =~= ev.take(i as int));
            assert(files_view(mid) == loaded_files(ev.take(i as int)));
            assert forall|k: u64| #[trigger]
                files_view(fs.files@).contains_key(k) implies files_view(fs.files@)[k] == loaded_files(
                ev.take(i + 1),
            )[k] by {
                if k != ino_counter {
                    assert(files_view(mid).contains_key(k));
                    assert(ev.take(i + 1)[k - 10] == ev.take(i as int)[k - 10]);
                    assert(files_view(fs.files@)[k] == fs.files@[k]@);
                    assert(files_view(mid)[k] == mid[k]@);
                } else {
                    assert(files_view(fs.files@)[k] == fs.files@[k]@);
                    assert(ev.take(i + 1)[k - 10] == ev[i as int]);
                }
            }
            assert forall|k: u64| #[trigger]
                files_view(fs.files@).contains_key(k) == loaded_files(ev.take(i + 1)).contains_key(
                k,
            ) by {
                if k != ino_counter {
                    assert(files_view(mid).contains_key(k) == loaded_files(
                        ev.take(i as int),
                    ).contains_key(k));
                }
            }
            assert(files_view(fs.files@) =~= loaded_files(ev.take(i + 1)));
            fs.set_name(entries[i].0.clone(), ino_counter);
            ino_counter = ino_counter + 1;
            i = i + 1;
        }
        assert(ev.take(i as int) =~= ev);
        fs.next_ino = ino_counter;
        fs
    }
}


impl Default for LoiFs {
    /// The fresh file system: the seeded files, named in order, with the
    /// next inode above the highest seeded one.
    fn default() -> (fs: Self)
        ensures
            fs@.wf(),
            fs@ == default_view(),
    {
        let table = files_table();
        let ghost t = seed_files();
        let mut fs = LoiFs {
            cwd: String::from_str("/Users/future/KB/project/app/loi/data"),
            next_ino: 1,
            files: HashMap::new(),
            filenames: Vec::new(),
        };
        let mut max_ino: u64 = 1;
        let mut i: usize = 0;
        assert(seeds_view(table@).len() == 3);
        assert(t.take(0) =~= Seq::<(u64, Seq<char>, Seq<u8>)>::empty());
        assert(files_view(fs.files@) =~= seed_map(t.take(0)));
        while i < table.len()
            invariant
                seeds_view(table@) == t,
                t == seed_files(),
                table@.len() == 3,
                0 <= i <= 3,
                fs@.wf(),
                fs@.cwd == "/Users/future/KB/project/app/loi/data"@,
                fs@.files == seed_map(t.take(i as int)),
                fs@.names == seed_names(t.take(i as int)),
                max_ino == seed_next(t.take(i as int)),
                max_ino <= 6,
            decreases 3 - i,
        {
            let node = table[i];
            assert(seeds_view(table@)[i as int] == node.spec_tuple());
            assert(t[0].0 == 3 && t[1].0 == 4 && t[2].0 == 5);
            let ghost mid = fs.files@;
            fs.files.insert(node.ino, vstd::slice::slice_to_vec(node.data));
            fs.set_name(String::from_str(node.name), node.ino);
            assert(t.take(i + 1).drop_last() =~= t.take(i as int));
            assert(files_view(fs.files@) =~= seed_map(t.take(i + 1)));
            if node.ino >= max_ino {
                max_ino = node.ino + 1;
            }
            i = i + 1;
        }
        fs.next_ino = max_ino;
        proof {
            lemma_default_state();
            assert(t.take(3) =~= t);
        }
        fs
    }
}

/// The seeded state computed step by step is the fresh file system's state.
proof fn lemma_default_state()
    ensures
        seed_next(seed_files()) == 6,
        seed_map(seed_files()) == default_view().files,
        seed_names(seed_files()) == default_view().names,
{
    let t = seed_files();
    reveal_strlit("hello.rs");
    reveal_strlit("loi.rs");
    reveal_strlit("tran.rs");
    let t1 = t.take(1);
    let t2 = t.take(2);
    assert(t1.drop_last() =~= Seq::<(u64, Seq<char>, Seq<u8>)>::empty());
    assert(t2.drop_last() =~= t1);
    assert(t.drop_last() =~= t2);
    assert(t1.last() == t[0]);
    assert(t2.last() == t[1]);
    assert(t.last() == t[2]);
    assert(!has_name(Seq::<(Seq<char>, u64)>::empty(), "hello.rs"@));
    assert(seed_names(t1.drop_last()) == Seq::<(Seq<char>, u64)>::empty());
    assert(seed_names(t1) =~= seq![("hello.rs"@, 3u64)]);
    assert("hello.rs"@.len() != "loi.rs"@.len());
    assert("hello.rs"@.len() != "tran.rs"@.len());
    assert("loi.rs"@.len() != "tran.rs"@.len());
    assert(!has_name(seq![("hello.rs"@, 3u64)], "loi.rs"@));
    assert(seed_names(t2) =~= seq![("hello.rs"@, 3u64), ("loi.rs"@, 4u64)]);
    assert(!has_name(seq![("hello.rs"@, 3u64), ("loi.rs"@, 4u64)], "tran.rs"@));
    assert(seed_names(t) =~= default_view().names);
    assert(seed_next(t1.drop_last()) == 1);
    assert(seed_next(t1) == 4);
    assert(seed_next(t2) == 5);
    assert(seed_map(t1.drop_last()) == Map::<u64, Seq<u8>>::empty());
    assert(seed_map(t1) == Map::<u64, Seq<u8>>::empty().insert(3u64, t[0].2));
    assert(seed_map(t2) == Map::<u64, Seq<u8>>::empty().insert(3u64, t[0].2).insert(4u64, t[1].2));
    assert(seed_map(t) =~= default_view().files);
}


// ----------------------------------------------------------------------------
// Laws
// ----------------------------------------------------------------------------

/// The attributes of an inode carry its number, kind and size, the fewest
/// 512-byte blocks that hold the size, mode 0755 for a directory and 0644
/// for a regular file, one link, owner 501 and group 20.
pub proof fn lemma_node_attr(ino: u64, kind: FileKind, size: u64)
    ensures
        node_attr(ino, kind, size).ino == ino,
        node_attr(ino, kind, size).kind == kind,
        node_attr(ino, kind, size).size == size,
        node_attr(ino, kind, size).blocks * 512 >= size,
        node_attr(ino, kind, size).blocks == 0 || (node_attr(ino, kind, size).blocks - 1) * 512
            < size,
        node_attr(ino, kind, size).perm == (if kind == FileKind::Directory {
            0o755u16
        } else {
            0o644u16
        }),
        node_attr(ino, kind, size).nlink == 1,
        node_attr(ino, kind, size).uid == 501,
        node_attr(ino, kind, size).gid == 20,
        node_attr(ino, kind, size).blksize == 512,
{
    assert(blocks_for(size) <= u64::MAX);
}

/// A read of as many bytes as were written, at the offset they were written
/// to, gives back exactly the written bytes.
pub proof fn lemma_read_after_write(old: Seq<u8>, offset: nat, data: Seq<u8>)
    ensures
        read_range(patched(old, offset as int, data), offset as int, data.len() as int) == data,
{
    let new = patched(old, offset as int, data);
    if data.len() > 0 {
        assert(read_range(new, offset as int, data.len() as int) =~= data);
    } else {
        assert(read_range(new, offset as int, 0) =~= data);
    }
}

/// A write leaves every byte outside the written range as it was, reads the
/// gap between the old end and the offset as zeros, and makes the file as
/// long as the old contents or the end of the written range, whichever is
/// further.
pub proof fn lemma_write_elsewhere(old: Seq<u8>, offset: nat, data: Seq<u8>, i: int)
    requires
        0 <= i < patched(old, offset as int, data).len(),
        !(offset <= i < offset + data.len()),
    ensures
        i < old.len() ==> patched(old, offset as int, data)[i] == old[i],
        i >= old.len() ==> patched(old, offset as int, data)[i] == 0u8,
        patched(old, offset as int, data).len() == (if offset + data.len() > old.len() {
            (offset + data.len()) as int
        } else {
            old.len() as int
        }),
{
}

/// Through the file system: after a write to a stored file, reading the
/// written range back gives the written bytes.
pub proof fn lemma_fs_read_after_write(v: FsView, ino: u64, offset: u64, data: Seq<u8>)
    requires
        v.files.contains_key(ino),
    ensures
        after_write(v, ino, offset as int, data).files.contains_key(ino),
        read_range(
            after_write(v, ino, offset as int, data).files[ino],
            offset as int,
            data.len() as int,
        ) == data,
        after_write(v, ino, offset as int, data).names == v.names,
{
    lemma_read_after_write(v.files[ino], offset as nat, data);
}

/// A created file is found under its name, bound to the inode that was next,
/// and is empty; every other name keeps its binding.
pub proof fn lemma_create_then_lookup(v: FsView, name: Seq<char>, other: Seq<char>)
    requires
        v.wf(),
    ensures
        after_create(v, name).wf(),
        after_create(v, name).name_map().contains_key(name),
        after_create(v, name).name_map()[name] == v.next_ino,
        after_create(v, name).files[v.next_ino] == Seq::<u8>::empty(),
        other != name ==> after_create(v, name).name_map().contains_key(other)
            == v.name_map().contains_key(other) && after_create(v, name).name_map()[other]
            == v.name_map()[other],
        after_create(v, name).next_ino == if v.next_ino == u64::MAX {
            0
        } else {
            v.next_ino + 1
        },
        forall|k: u64|
            k != v.next_ino ==> (#[trigger] after_create(v, name).files.contains_key(k)
                == v.files.contains_key(k) && after_create(v, name).files[k] == v.files[k]),
{
    lemma_names_set(v.names, name, v.next_ino);
}

/// An unlinked name is no longer found, nor is the file of its inode; every
/// other name keeps its binding.
pub proof fn lemma_unlink_then_lookup(v: FsView, name: Seq<char>, other: Seq<char>)
    requires
        v.wf(),
        v.name_map().contains_key(name),
    ensures
        after_unlink(v, name).wf(),
        !after_unlink(v, name).name_map().contains_key(name),
        !after_unlink(v, name).files.contains_key(v.name_map()[name]),
        other != name ==> after_unlink(v, name).name_map().contains_key(other)
            == v.name_map().contains_key(other) && after_unlink(v, name).name_map()[other]
            == v.name_map()[other],
{
    lemma_names_remove(v.names, name);
}

/// After a rename the new name is bound to the old name's inode, the old
/// name (if different) is gone, the files are untouched, and every other
/// name keeps its binding.
pub proof fn lemma_rename_then_lookup(
    v: FsView,
    name: Seq<char>,
    newname: Seq<char>,
    other: Seq<char>,
)
    requires
        v.wf(),
        v.name_map().contains_key(name),
    ensures
        after_rename(v, name, newname).wf(),
        after_rename(v, name, newname).name_map().contains_key(newname),
        after_rename(v, name, newname).name_map()[newname] == v.name_map()[name],
        name != newname ==> !after_rename(v, name, newname).name_map().contains_key(name),
        after_rename(v, name, newname).files == v.files,
        other != name && other != newname ==> after_rename(
            v,
            name,
            newname,
        ).name_map().contains_key(other) == v.name_map().contains_key(other) && after_rename(
            v,
            name,
            newname,
        ).name_map()[other] == v.name_map()[other],
{
    lemma_names_remove(v.names, name);
    lemma_names_set(names_remove(v.names, name), newname, v.name_map()[name]);
}

/// The root directory lists `.` and `..`, then each bound name once, with
/// its inode, as a regular file.
pub proof fn lemma_listing_names(v: FsView)
    requires
        v.wf(),
    ensures
        v.entries().len() == v.names.len() + 2,
        v.entries()[0] == (1u64, FileKind::Directory, "."@),
        v.entries()[1] == (1u64, FileKind::Directory, ".."@),
        forall|n: Seq<char>|
            #[trigger] v.name_map().contains_key(n) ==> exists|i: int|
                2 <= i < v.entries().len() && #[trigger] v.entries()[i] == (
                    v.name_map()[n],
                    FileKind::RegularFile,
                    n,
                ),
        forall|i: int, j: int|
            2 <= i < v.entries().len() && 2 <= j < v.entries().len() && i != j ==> #[trigger] v.entries()[i].2
                != #[trigger] v.entries()[j].2,
        forall|i: int|
            2 <= i < v.entries().len() ==> v.name_map().contains_key(#[trigger] v.entries()[i].2)
                && v.entries()[i].0 == v.name_map()[v.entries()[i].2] && v.entries()[i].1
                == FileKind::RegularFile,
{
    assert forall|n: Seq<char>| #[trigger] v.name_map().contains_key(n) implies exists|i: int|
        2 <= i < v.entries().len() && #[trigger] v.entries()[i] == (
            v.name_map()[n],
            FileKind::RegularFile,
            n,
        ) by {
        let k = name_index(v.names, n);
        lemma_name_map_at(v.names, k);
        assert(v.entries()[k + 2] == (v.names[k].1, FileKind::RegularFile, v.names[k].0));
    }
    assert forall|i: int| 2 <= i < v.entries().len() implies v.name_map().contains_key(
        #[trigger] v.entries()[i].2,
    ) && v.entries()[i].0 == v.name_map()[v.entries()[i].2] && v.entries()[i].1
        == FileKind::RegularFile by {
        assert(v.entries()[i] == (v.names[i - 2].1, FileKind::RegularFile, v.names[i - 2].0));
        lemma_name_map_at(v.names, i - 2);
    }
    assert forall|i: int, j: int|
        2 <= i < v.entries().len() && 2 <= j < v.entries().len() && i != j implies #[trigger] v.entries()[i].2
        != #[trigger] v.entries()[j].2 by {
        assert(v.entries()[i].2 == v.names[i - 2].0);
        assert(v.entries()[j].2 == v.names[j - 2].0);
    }
}

/// Entries read from disk under distinct names: each is found under its own
/// name, bound to inode `10 + i`, holding its contents.
pub proof fn lemma_loaded_lookup(entries: Seq<(Seq<char>, Seq<u8>)>, i: int)
    requires
        0 <= i < entries.len(),
        entries.len() + 10 <= u64::MAX,
        forall|a: int, b: int|
            0 <= a < entries.len() && 0 <= b < entries.len() && a != b ==> #[trigger] entries[a].0
                != #[trigger] entries[b].0,
    ensures
        names_unique(loaded_names(entries)),
        name_map(loaded_names(entries)).contains_key(entries[i].0),
        name_map(loaded_names(entries))[entries[i].0] == 10 + i,
        loaded_files(entries).contains_key((10 + i) as u64),
        loaded_files(entries)[(10 + i) as u64] == entries[i].1,
    decreases entries.len(),
{
    lemma_loaded_unique(entries);
    let prefix = entries.drop_last();
    let last = entries.len() - 1;
    if entries.len() > 1 {
        lemma_loaded_unique(prefix);
    }
    lemma_names_set(loaded_names(prefix), entries.last().0, (10 + last) as u64);
    if i < last {
        lemma_loaded_lookup(prefix, i);
        assert(entries[i].0 != entries[last].0);
    }
}

/// Binding entries read from disk in order keeps the name table free of repeats.
pub proof fn lemma_loaded_unique(entries: Seq<(Seq<char>, Seq<u8>)>)
    ensures
        names_unique(loaded_names(entries)),
    decreases entries.len(),
{
    if entries.len() > 0 {
        lemma_loaded_unique(entries.drop_last());
        lemma_names_set(
            loaded_names(entries.drop_last()),
            entries.last().0,
            (10 + entries.len() - 1) as u64,
        );
    }
}


/// Creating a file keeps the state consistent, as long as the next inode
/// does not wrap; the inode it gets held no file and was bound to no name.
pub proof fn lemma_create_keeps_consistent(v: FsView, name: Seq<char>)
    requires
        v.consistent(),
        v.next_ino < u64::MAX,
    ensures
        after_create(v, name).consistent(),
        !v.files.contains_key(v.next_ino),
        forall|n: Seq<char>| #[trigger]
            v.name_map().contains_key(n) ==> v.name_map()[n] != v.next_ino,
{
    lemma_names_set(v.names, name, v.next_ino);
    let w = after_create(v, name);
    assert forall|n: Seq<char>| #[trigger] v.name_map().contains_key(n) implies v.name_map()[n]
        != v.next_ino by {
        assert(v.files.contains_key(v.name_map()[n]));
    }
    assert forall|n: Seq<char>| #[trigger] w.name_map().contains_key(n) implies w.files.contains_key(
        w.name_map()[n],
    ) by {
        if n != name {
            assert(v.files.contains_key(v.name_map()[n]));
        }
    }
    assert forall|a: Seq<char>, b: Seq<char>|
        w.name_map().contains_key(a) && w.name_map().contains_key(b) && a != b implies #[trigger] w.name_map()[a]
        != #[trigger] w.name_map()[b] by {
        if a == name {
            assert(v.files.contains_key(v.name_map()[b]));
        } else if b == name {
            assert(v.files.contains_key(v.name_map()[a]));
        } else {
            assert(v.name_map()[a] != v.name_map()[b]);
        }
    }
    assert forall|k: u64| #[trigger] w.files.contains_key(k) implies 1 < k < w.next_ino by {
        if k != v.next_ino {
            assert(v.files.contains_key(k));
        }
    }
}

/// Unlinking keeps the state consistent.
pub proof fn lemma_unlink_keeps_consistent(v: FsView, name: Seq<char>)
    requires
        v.consistent(),
    ensures
        after_unlink(v, name).consistent(),
{
    lemma_names_remove(v.names, name);
    if v.name_map().contains_key(name) {
        let w = after_unlink(v, name);
        let gone = v.name_map()[name];
        assert forall|n: Seq<char>| #[trigger] w.name_map().contains_key(n) implies w.files.contains_key(
            w.name_map()[n],
        ) by {
            assert(v.files.contains_key(v.name_map()[n]));
            assert(v.name_map()[n] != gone);
        }
        assert forall|a: Seq<char>, b: Seq<char>|
            w.name_map().contains_key(a) && w.name_map().contains_key(b) && a != b implies #[trigger] w.name_map()[a]
            != #[trigger] w.name_map()[b] by {
            assert(v.name_map()[a] != v.name_map()[b]);
        }
        assert forall|k: u64| #[trigger] w.files.contains_key(k) implies 1 < k < w.next_ino by {
            assert(v.files.contains_key(k));
        }
    }
}

/// Renaming keeps the state consistent.
pub proof fn lemma_rename_keeps_consistent(v: FsView, name: Seq<char>, newname: Seq<char>)
    requires
        v.consistent(),
    ensures
        after_rename(v, name, newname).consistent(),
{
    if v.name_map().contains_key(name) {
        let ino = v.name_map()[name];
        lemma_names_remove(v.names, name);
        lemma_names_set(names_remove(v.names, name), newname, ino);
        let w = after_rename(v, name, newname);
        assert forall|n: Seq<char>| #[trigger] w.name_map().contains_key(n) implies w.files.contains_key(
            w.name_map()[n],
        ) by {
            if n != newname {
                assert(v.files.contains_key(v.name_map()[n]));
            } else {
                assert(v.files.contains_key(ino));
            }
        }
        assert forall|a: Seq<char>, b: Seq<char>|
            w.name_map().contains_key(a) && w.name_map().contains_key(b) && a != b implies #[trigger] w.name_map()[a]
            != #[trigger] w.name_map()[b] by {
            if a == newname {
                assert(v.name_map()[name] != v.name_map()[b]);
            } else if b == newname {
                assert(v.name_map()[name] != v.name_map()[a]);
            } else {
                assert(v.name_map()[a] != v.name_map()[b]);
            }
        }
    }
}

/// A write keeps the state consistent and leaves the set of stored inodes
/// as it was.
pub proof fn lemma_write_keeps_consistent(v: FsView, ino: u64, offset: int, data: Seq<u8>)
    requires
        v.consistent(),
    ensures
        after_write(v, ino, offset, data).consistent(),
        after_write(v, ino, offset, data).files.dom() == v.files.dom(),
{
    let w = after_write(v, ino, offset, data);
    assert(w.files.dom() =~= v.files.dom());
    assert forall|n: Seq<char>| #[trigger] w.name_map().contains_key(n) implies w.files.contains_key(
        w.name_map()[n],
    ) by {
        assert(v.files.contains_key(v.name_map()[n]));
    }
    assert forall|a: Seq<char>, b: Seq<char>|
        w.name_map().contains_key(a) && w.name_map().contains_key(b) && a != b implies #[trigger] w.name_map()[a]
        != #[trigger] w.name_map()[b] by {
        assert(v.name_map()[a] != v.name_map()[b]);
    }
    assert forall|k: u64| #[trigger] w.files.contains_key(k) implies 1 < k < w.next_ino by {
        assert(v.files.contains_key(k));
    }
}

/// The fresh file system is consistent.
pub proof fn lemma_default_consistent()
    ensures
        default_view().consistent(),
{
    let v = default_view();
    reveal_strlit("hello.rs");
    reveal_strlit("loi.rs");
    reveal_strlit("tran.rs");
    assert("hello.rs"@.len() != "loi.rs"@.len());
    assert("hello.rs"@.len() != "tran.rs"@.len());
    assert("loi.rs"@.len() != "tran.rs"@.len());
    assert(names_unique(v.names));
    lemma_name_map_at(v.names, 0);
    lemma_name_map_at(v.names, 1);
    lemma_name_map_at(v.names, 2);
    assert forall|n: Seq<char>| #[trigger] v.name_map().contains_key(n) implies (n == v.names[0].0
        || n == v.names[1].0 || n == v.names[2].0) by {
        assert(0 <= name_index(v.names, n) < 3);
    }
}

/// The names bound while loading entries in order: no repeats, every inode
/// from `10` to below `10 + entries.len()`, and no inode bound twice.
proof fn lemma_loaded_names_range(entries: Seq<(Seq<char>, Seq<u8>)>)
    requires
        entries.len() + 10 <= u64::MAX,
    ensures
        names_unique(loaded_names(entries)),
        forall|n: Seq<char>| #[trigger]
            name_map(loaded_names(entries)).contains_key(n) ==> 10 <= name_map(
                loaded_names(entries),
            )[n] < 10 + entries.len(),
        forall|a: Seq<char>, b: Seq<char>|
            name_map(loaded_names(entries)).contains_key(a) && name_map(
                loaded_names(entries),
            ).contains_key(b) && a != b ==> #[trigger] name_map(loaded_names(entries))[a]
                != #[trigger] name_map(loaded_names(entries))[b],
    decreases entries.len(),
{
    lemma_loaded_unique(entries);
    if entries.len() > 0 {
        let prefix = entries.drop_last();
        let top = (10 + entries.len() - 1) as u64;
        lemma_loaded_names_range(prefix);
        lemma_names_set(loaded_names(prefix), entries.last().0, top);
        let m0 = name_map(loaded_names(prefix));
        let m = name_map(loaded_names(entries));
        assert(m == m0.insert(entries.last().0, top));
        assert forall|n: Seq<char>| #[trigger] m.contains_key(n) implies 10 <= m[n] < 10
            + entries.len() by {
            if n != entries.last().0 {
                assert(m0.contains_key(n));
            }
        }
        assert forall|a: Seq<char>, b: Seq<char>|
            m.contains_key(a) && m.contains_key(b) && a != b implies #[trigger] m[a] != #[trigger] m[b] by {
            if a == entries.last().0 {
                assert(m0.contains_key(b) && m0[b] < top);
            } else if b == entries.last().0 {
                assert(m0.contains_key(a) && m0[a] < top);
            } else {
                assert(m0[a] != m0[b]);
            }
        }
    }
}

/// A file system loaded from disk is consistent.
pub proof fn lemma_loaded_consistent(entries: Seq<(Seq<char>, Seq<u8>)>)
    requires
        entries.len() + 10 <= u64::MAX,
    ensures
        loaded_view(entries).consistent(),
{
    lemma_loaded_names_range(entries);
    let v = loaded_view(entries);
    assert forall|n: Seq<char>| #[trigger] v.name_map().contains_key(n) implies v.files.contains_key(
        v.name_map()[n],
    ) by {
        assert(10 <= v.name_map()[n] < 10 + entries.len());
    }
}


/// A write into a stored file never shortens it: the file becomes as long as
/// its old contents or the end of the written range, whichever is further;
/// the written range holds the written bytes, every other old byte is kept,
/// and any gap past the old end reads as zero. No other file, no name and
/// nothing else changes.
pub proof fn lemma_write_effect(v: FsView, ino: u64, offset: nat, data: Seq<u8>)
    requires
        v.files.contains_key(ino),
    ensures
        ({
            let old = v.files[ino];
            let new = after_write(v, ino, offset as int, data).files[ino];
            &&& after_write(v, ino, offset as int, data).files.contains_key(ino)
            &&& new.len() == if offset + data.len() > old.len() {
                (offset + data.len()) as int
            } else {
                old.len() as int
            }
            &&& forall|i: int| 0 <= i < data.len() ==> #[trigger] new[offset + i] == data[i]
            &&& forall|i: int|
                0 <= i < old.len() && !(offset <= i < offset + data.len()) ==> #[trigger] new[i]
                    == old[i]
            &&& forall|i: int|
                old.len() <= i < offset && i < new.len() ==> #[trigger] new[i] == 0u8
        }),
        forall|k: u64|
            k != ino ==> (#[trigger] after_write(v, ino, offset as int, data).files.contains_key(k)
                == v.files.contains_key(k) && after_write(v, ino, offset as int, data).files[k]
                == v.files[k]),
        after_write(v, ino, offset as int, data).names == v.names,
        after_write(v, ino, offset as int, data).next_ino == v.next_ino,
        after_write(v, ino, offset as int, data).cwd == v.cwd,
{
}

/// A write to an inode that holds no file changes nothing.
pub proof fn lemma_write_missing(v: FsView, ino: u64, offset: int, data: Seq<u8>)
    requires
        !v.files.contains_key(ino),
    ensures
        after_write(v, ino, offset, data) == v,
{
}

/// Unlinking a name that is not bound changes nothing.
pub proof fn lemma_unlink_unbound(v: FsView, name: Seq<char>)
    requires
        !v.name_map().contains_key(name),
    ensures
        after_unlink(v, name) == v,
{
}

/// Renaming a name that is not bound changes nothing: every name, the new
/// one included, keeps its binding, and the files stay as they were.
pub proof fn lemma_rename_unbound(v: FsView, name: Seq<char>, newname: Seq<char>)
    requires
        !v.name_map().contains_key(name),
    ensures
        after_rename(v, name, newname) == v,
        after_rename(v, name, newname).name_map() == v.name_map(),
{
}

/// Unlinking removes only the file of the unlinked name's inode; every other
/// file is kept as it was.
pub proof fn lemma_unlink_keeps_other_files(v: FsView, name: Seq<char>, k: u64)
    requires
        v.name_map().contains_key(name),
        k != v.name_map()[name],
    ensures
        after_unlink(v, name).files.contains_key(k) == v.files.contains_key(k),
        after_unlink(v, name).files[k] == v.files[k],
{
}

/// A read returns the bytes from `offset` on, as many as asked for and as
/// the contents hold, in order; nothing at or past the end.
pub proof fn lemma_read_bytes(data: Seq<u8>, offset: nat, size: nat)
    ensures
        read_range(data, offset as int, size as int).len() == if offset >= data.len() {
            0
        } else if offset + size < data.len() {
            size as int
        } else {
            (data.len() - offset) as int
        },
        forall|i: int|
            0 <= i < read_range(data, offset as int, size as int).len() ==> #[trigger] read_range(
                data,
                offset as int,
                size as int,
            )[i] == data[offset + i],
{
}

} // verus!
