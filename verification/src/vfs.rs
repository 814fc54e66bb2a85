//! The virtual file system: an inode table rooted at a directory, absolute
//! path resolution, and files whose bytes live in SECDED page frames.
use vstd::prelude::*;
use vstd::string::*;
use crate::inode::{Inode, InodeType};
use crate::allocator::{
    MemoryAllocator, PageStatus, PAGE_SIZE, TOTAL_PAGES, free_count, frame_clean, same_contents,
    count_true, lemma_count_zero, lemma_count_take, lemma_count_same,
};
use crate::ecc::{DecodeResult, decode_spec, encode_spec, recovered_byte, lemma_decode_encode};

verus! {

pub const ERR_NOT_ABSOLUTE: &'static str = "Path must be absolute (must start with '/').";
pub const ERR_LOOKUP_MISSING: &'static str = "File or directory not found in path lookup.";
pub const ERR_LOOKUP_IN_FILE: &'static str = "Attempted to lookup path component inside a regular file node.";
pub const ERR_PARENT_NOT_DIR: &'static str = "Parent path is not a directory.";
pub const ERR_NAME_TAKEN: &'static str = "Directory or file already exists with this name.";
pub const ERR_WRITE_DIR: &'static str = "Cannot write data: Path is a directory node.";
pub const ERR_WRITE_OOM: &'static str = "Out of physical memory blocks: file write failed.";
pub const ERR_READ_DIR: &'static str = "Cannot read data: Path is a directory node.";

/// Scanning state of a path: the components completed so far and the
/// component being read.
pub open spec fn split_state(p: Seq<char>) -> (Seq<Seq<char>>, Seq<char>)
    decreases p.len(),
{
    if p.len() == 0 {
        (Seq::empty(), Seq::empty())
    } else {
        let (done, cur) = split_state(p.drop_last());
        if p.last() == '/' {
            if cur.len() > 0 {
                (done.push(cur), Seq::empty())
            } else {
                (done, Seq::empty())
            }
        } else {
            (done, cur.push(p.last()))
        }
    }
}

/// The nonempty `/`-separated components of a path, in order.
pub open spec fn components(p: Seq<char>) -> Seq<Seq<char>> {
    let (done, cur) = split_state(p);
    if cur.len() > 0 {
        done.push(cur)
    } else {
        done
    }
}

/// A name without `/`.
pub open spec fn plain_name(q: Seq<char>) -> bool {
    q.len() > 0 && forall|k: int| 0 <= k < q.len() ==> q[k] != '/'
}

/// Scanning characters other than `/` only extends the current component.
proof fn lemma_split_plain(p: Seq<char>, q: Seq<char>)
    requires
        forall|k: int| 0 <= k < q.len() ==> q[k] != '/',
    ensures
        split_state(p + q) == (split_state(p).0, split_state(p).1 + q),
    decreases q.len(),
{
    if q.len() == 0 {
        assert(p + q =~= p);
        assert(split_state(p).1 + q =~= split_state(p).1);
    } else {
        lemma_split_plain(p, q.drop_last());
        assert((p + q).drop_last() =~= p + q.drop_last());
        assert((split_state(p).1 + q.drop_last()).push(q.last()) =~= split_state(p).1 + q);
    }
}

/// Appending `/name` to a path appends `name` to its components.
pub proof fn lemma_components_child(p: Seq<char>, name: Seq<char>)
    requires
        plain_name(name),
    ensures
        components(p.push('/') + name) == components(p).push(name),
{
    lemma_split_plain(p.push('/'), name);
    assert(p.push('/').drop_last() =~= p);
    let (d, c) = split_state(p.push('/'));
    assert(c.len() == 0);
    assert(c + name =~= name);
}

/// Entry `j` is the first entry called `name`.
pub open spec fn entry_named(entries: Seq<(String, usize)>, name: Seq<char>, j: int) -> bool {
    &&& 0 <= j < entries.len()
    &&& entries[j].0@ == name
    &&& forall|k: int| 0 <= k < j ==> entries[k].0@ != name
}

/// Some entry is called `name`.
pub open spec fn has_entry(entries: Seq<(String, usize)>, name: Seq<char>) -> bool {
    exists|j: int| 0 <= j < entries.len() && entries[j].0@ == name
}

/// The inode of the first entry called `name`.
pub open spec fn lookup(entries: Seq<(String, usize)>, name: Seq<char>) -> Option<usize> {
    if exists|j: int| entry_named(entries, name, j) {
        Some(entries[choose|j: int| entry_named(entries, name, j)].1)
    } else {
        None
    }
}

/// The entry found for `name` is its first occurrence.
pub proof fn lemma_lookup_at(entries: Seq<(String, usize)>, name: Seq<char>, j: int)
    requires
        entry_named(entries, name, j),
    ensures
        lookup(entries, name) == Some(entries[j].1),
{
    let k = choose|k: int| entry_named(entries, name, k);
    assert(k == j) by {
        if k < j {
            assert(entries[k].0@ != name);
        } else if k > j {
            assert(entries[j].0@ != name);
        }
    }
}

/// An empty directory.
pub open spec fn is_empty_dir(t: InodeType) -> bool {
    t matches InodeType::Directory { entries } && entries@.len() == 0
}

/// An empty file.
pub open spec fn is_empty_file(t: InodeType) -> bool {
    t matches InodeType::File { blocks, size } && blocks@.len() == 0 && size == 0
}

/// The file system: inode 0 is the root directory.
#[derive(Debug, Clone)]
pub struct VirtualFileSystem {
    /// The inode table.
    pub inodes: Vec<Inode>,
}

impl VirtualFileSystem {
    /// The root is a directory and every directory entry names an inode of
    /// the table.
    pub open spec fn wf(&self) -> bool {
        &&& self.inodes@.len() >= 1
        &&& self.inodes@[0].inode_type is Directory
        &&& forall|i: int, j: int|
            #![trigger self.inodes@[i].inode_type->entries@[j]]
            0 <= i < self.inodes@.len() && self.inodes@[i].inode_type is Directory && 0 <= j
                < self.inodes@[i].inode_type->entries@.len()
                ==> self.inodes@[i].inode_type->entries@[j].1 < self.inodes@.len()
        &&& forall|i: int, k: int|
            #![trigger self.inodes@[i].inode_type->blocks@[k]]
            0 <= i < self.inodes@.len() && self.inodes@[i].inode_type is File && 0 <= k
                < self.inodes@[i].inode_type->blocks@.len()
                ==> self.inodes@[i].inode_type->blocks@[k] < TOTAL_PAGES
    }

    /// One lookup step: the child called `name` of directory `cur`.
    pub open spec fn step(&self, cur: usize, name: Seq<char>) -> Result<usize, &'static str> {
        match self.inodes@[cur as int].inode_type {
            InodeType::Directory { entries } => match lookup(entries@, name) {
                Some(c) => Ok(c),
                None => Err(ERR_LOOKUP_MISSING),
            },
            InodeType::File { .. } => Err(ERR_LOOKUP_IN_FILE),
        }
    }

    /// The inode reached from the root by following `comps`.
    pub open spec fn walk(&self, comps: Seq<Seq<char>>) -> Result<usize, &'static str>
        decreases comps.len(),
    {
        if comps.len() == 0 {
            Ok(0)
        } else {
            match self.walk(comps.drop_last()) {
                Ok(cur) => self.step(cur, comps.last()),
                Err(e) => Err(e),
            }
        }
    }

    /// What resolving the path `p` yields.
    pub open spec fn resolve_spec(&self, p: Seq<char>) -> Result<usize, &'static str> {
        if p.len() == 0 || p[0] != '/' {
            Err(ERR_NOT_ABSOLUTE)
        } else {
            self.walk(components(p))
        }
    }

    /// A walk that fails keeps failing with the same error when more
    /// components follow.
    pub proof fn lemma_walk_err_prefix(&self, s: Seq<Seq<char>>, t: Seq<Seq<char>>)
        requires
            s.len() <= t.len(),
            t.subrange(0, s.len() as int) == s,
            self.walk(s) is Err,
        ensures
            self.walk(t) == self.walk(s),
        decreases t.len(),
    {
        if t.len() > s.len() {
            assert(t.drop_last().subrange(0, s.len() as int) =~= s);
            self.lemma_walk_err_prefix(s, t.drop_last());
        } else {
            assert(t =~= s);
        }
    }

    /// A successful walk in a well-formed table ends at an inode of it.
    pub proof fn lemma_walk_in_range(&self, s: Seq<Seq<char>>)
        requires
            self.wf(),
        ensures
            self.walk(s) matches Ok(c) ==> c < self.inodes@.len(),
        decreases s.len(),
    {
        if s.len() > 0 {
            self.lemma_walk_in_range(s.drop_last());
            if let Ok(cur) = self.walk(s.drop_last()) {
                if let InodeType::Directory { entries } = self.inodes@[cur as int].inode_type {
                    if exists|j: int| entry_named(entries@, s.last(), j) {
                        let j = choose|j: int| entry_named(entries@, s.last(), j);
                        assert(self.inodes@[cur as int].inode_type->entries@[j].1 < self.inodes@.len());
                    }
                }
            }
        }
    }

    /// A file system holding only the root directory.
    pub fn new() -> (v: Self)
        ensures
            v.wf(),
            v.inodes@.len() == 1,
            v.inodes@[0].name@.len() == 0,
            v.inodes@[0].index == 0,
            v.inodes@[0].inode_type matches InodeType::Directory { entries } && entries@.len() == 0,
    {
        proof {
            reveal_strlit("");
        }
        let root = Inode::new_directory(0, "");
        let mut inodes: Vec<Inode> = Vec::new();
        inodes.push(root);
        VirtualFileSystem { inodes }
    }
}

impl VirtualFileSystem {

    /// Index of the first entry of `entries` called `name`.
    pub(crate) fn find_entry(entries: &Vec<(String, usize)>, name: &String) -> (r: Option<usize>)
        ensures
            match r {
                Some(j) => entry_named(entries@, name@, j as int),
                None => !has_entry(entries@, name@),
            },
    {
        let mut j: usize = 0;
        while j < entries.len()
            invariant
                j <= entries@.len(),
                forall|k: int| 0 <= k < j ==> entries@[k].0@ != name@,
            decreases entries@.len() - j,
        {
            if entries[j].0 == *name {
                return Some(j);
            }
            j = j + 1;
        }
        None
    }

    /// Resolves an absolute path to the index of its inode.
    pub fn resolve_path(&self, path: &str) -> (r: Result<usize, &'static str>)
        requires
            self.wf(),
        ensures
            r == self.resolve_spec(path@),
            r matches Ok(i) ==> i < self.inodes@.len(),
    {
        let n = path.unicode_len();
        if n == 0 || path.get_char(0) != '/' {
            return Err(ERR_NOT_ABSOLUTE);
        }
        let parts = split_components(path);
        let ghost comps = parts.deep_view();
        let mut current_idx: usize = 0;
        let mut k: usize = 0;
        while k < parts.len()
            invariant
                self.wf(),
                comps == parts.deep_view(),
                comps == components(path@),
                k <= parts@.len(),
                self.walk(comps.subrange(0, k as int)) == Ok::<usize, &'static str>(current_idx),
                current_idx < self.inodes@.len(),
                path@.len() > 0 && path@[0] == '/',
            decreases parts@.len() - k,
        {
            assert(comps.subrange(0, k + 1).drop_last() =~= comps.subrange(0, k as int));
            assert(comps.subrange(0, k + 1).last() == parts@[k as int]@);
            match &self.inodes[current_idx].inode_type {
                InodeType::Directory { entries } => {
                    match Self::find_entry(entries, &parts[k]) {
                        Some(j) => {
                            proof {
                                assert(entry_named(entries@, parts@[k as int]@, j as int));
                                assert(self.inodes@[current_idx as int].inode_type->entries@[j as int].1
                                    < self.inodes@.len());
                            }
                            current_idx = entries[j].1;
                        },
                        None => {
                            proof {
                                self.lemma_walk_err_prefix(comps.subrange(0, k + 1), comps);
                                assert(comps.subrange(0, comps.len() as int) =~= comps);
                            }
                            return Err(ERR_LOOKUP_MISSING);
                        },
                    }
                },
                _ => {
                    proof {
                        self.lemma_walk_err_prefix(comps.subrange(0, k + 1), comps);
                        assert(comps.subrange(0, comps.len() as int) =~= comps);
                    }
                    return Err(ERR_LOOKUP_IN_FILE);
                },
            }
            k = k + 1;
        }
        assert(comps.subrange(0, comps.len() as int) =~= comps);
        Ok(current_idx)
    }
}

impl VirtualFileSystem {

    /// What creating a node called `name` under the directory at `parent`
    /// does: it fails if the parent does not resolve, is a file, or already
    /// has an entry of that name; otherwise a new empty node is appended to
    /// the table and registered as the parent's last entry.
    pub open spec fn create_outcome(
        &self,
        after: Self,
        parent: Seq<char>,
        name: Seq<char>,
        is_dir: bool,
        r: Result<usize, &'static str>,
    ) -> bool {
        match self.resolve_spec(parent) {
            Err(e) => r == Err::<usize, &'static str>(e) && after == *self,
            Ok(pi) => match self.inodes@[pi as int].inode_type {
                InodeType::File { .. } => r == Err::<usize, &'static str>(ERR_PARENT_NOT_DIR) && after
                    == *self,
                InodeType::Directory { entries } => if has_entry(entries@, name) {
                    r == Err::<usize, &'static str>(ERR_NAME_TAKEN) && after == *self
                } else {
                    let n = self.inodes@.len();
                    let node = after.inodes@[n as int];
                    let dir = after.inodes@[pi as int];
                    &&& r == Ok::<usize, &'static str>(n as usize)
                    &&& after.inodes@.len() == n + 1
                    &&& forall|i: int|
                        0 <= i < n && i != pi ==> #[trigger] after.inodes@[i] == self.inodes@[i]
                    &&& node.index == n && node.name@ == name
                    &&& is_dir ==> is_empty_dir(node.inode_type)
                    &&& !is_dir ==> is_empty_file(node.inode_type)
                    &&& dir.index == self.inodes@[pi as int].index
                    &&& dir.name == self.inodes@[pi as int].name
                    &&& dir.inode_type matches InodeType::Directory { entries: e2 } && e2@
                        == entries@.push(e2@.last()) && e2@.last().0@ == name && e2@.last().1 == n
                },
            },
        }
    }

    fn create_node(&mut self, parent_path: &str, name: &str, is_dir: bool) -> (r: Result<
        usize,
        &'static str,
    >)
        requires
            old(self).wf(),
        ensures
            final(self).wf(),
            old(self).create_outcome(*final(self), parent_path@, name@, is_dir, r),
    {
        let parent_idx = self.resolve_path(parent_path)?;
        if !self.inodes[parent_idx].is_directory() {
            return Err(ERR_PARENT_NOT_DIR);
        }
        let name_string = String::from_str(name);
        if let InodeType::Directory { entries } = &self.inodes[parent_idx].inode_type {
            if Self::find_entry(entries, &name_string).is_some() {
                return Err(ERR_NAME_TAKEN);
            }
        }
        let new_idx = self.inodes.len();
        let new_inode = if is_dir {
            Inode::new_directory(new_idx, name)
        } else {
            Inode::new_file(new_idx, name)
        };
        self.inodes.push(new_inode);
        match &mut self.inodes[parent_idx].inode_type {
            InodeType::Directory { entries } => {
                entries.push((name_string, new_idx));
            },
            InodeType::File { .. } => {},
        }
        proof {
            assert forall|i: int, k: int|
                0 <= i < self.inodes@.len() && self.inodes@[i].inode_type is File && 0 <= k
                    < self.inodes@[i].inode_type->blocks@.len() implies #[trigger] self.inodes@[i].inode_type->blocks@[k]
                < TOTAL_PAGES by {
                if i < new_idx && i != parent_idx {
                    assert(self.inodes@[i] == old(self).inodes@[i]);
                }
            }
            assert forall|i: int, j: int|
                0 <= i < self.inodes@.len() && self.inodes@[i].inode_type is Directory && 0 <= j
                    < self.inodes@[i].inode_type->entries@.len() implies #[trigger] self.inodes@[i].inode_type->entries@[j].1
                < self.inodes@.len() by {
                if i < new_idx && i != parent_idx {
                    assert(self.inodes@[i] == old(self).inodes@[i]);
                    assert(old(self).inodes@[i].inode_type->entries@[j].1 < old(self).inodes@.len());
                } else if i == parent_idx {
                    if j < self.inodes@[i].inode_type->entries@.len() - 1 {
                        assert(old(self).inodes@[i].inode_type->entries@[j].1 < old(self).inodes@.len());
                    }
                }
            }
        }
        Ok(new_idx)
    }

    /// Creates an empty directory `name` inside the directory at `parent_path`
    /// and returns its inode index.
    pub fn mkdir(&mut self, parent_path: &str, name: &str) -> (r: Result<usize, &'static str>)
        requires
            old(self).wf(),
        ensures
            final(self).wf(),
            old(self).create_outcome(*final(self), parent_path@, name@, true, r),
    {
        self.create_node(parent_path, name, true)
    }

    /// Creates an empty file `name` inside the directory at `parent_path` and
    /// returns its inode index.
    pub fn create_file(&mut self, parent_path: &str, name: &str) -> (r: Result<usize, &'static str>)
        requires
            old(self).wf(),
        ensures
            final(self).wf(),
            old(self).create_outcome(*final(self), parent_path@, name@, false, r),
    {
        self.create_node(parent_path, name, false)
    }
}


/// Number of page frames a file of `len` bytes occupies (at least one).
pub open spec fn block_count(len: nat) -> nat {
    if len == 0 {
        1
    } else {
        ((len + PAGE_SIZE - 1) / (PAGE_SIZE as int)) as nat
    }
}

/// Byte `x` of `data`, or 0 past its end.
pub open spec fn padded_byte(data: Seq<u8>, x: int) -> u8 {
    if 0 <= x < data.len() {
        data[x]
    } else {
        0
    }
}

/// `j` is one of `blocks`.
pub open spec fn in_blocks(blocks: Seq<usize>, j: int) -> bool {
    exists|k: int| 0 <= k < blocks.len() && #[trigger] blocks[k] == j
}

/// Owner of frame `j` once the frames in `blocks` are released.
pub open spec fn owner_after_release(a: MemoryAllocator, blocks: Seq<usize>, j: int) -> Option<u32> {
    if in_blocks(blocks, j) {
        None
    } else {
        a.allocation_map@[j]
    }
}

/// Frame `j` is free once the frames in `blocks` are released.
pub open spec fn free_after_release(a: MemoryAllocator, blocks: Seq<usize>, j: int) -> bool {
    owner_after_release(a, blocks, j) is None && a.frames@[j].status != PageStatus::Quarantined
}

/// The frames `blocks`, owned by `pid` and distinct, hold `data` (padded
/// with zeros) as codewords, one page per block.
pub open spec fn holds_data(a: MemoryAllocator, blocks: Seq<usize>, data: Seq<u8>, pid: u32) -> bool {
    &&& blocks.len() == block_count(data.len())
    &&& forall|j: int|
        0 <= j < blocks.len() ==> #[trigger] blocks[j] < TOTAL_PAGES && a.allocation_map@[blocks[j] as int]
            == Some(pid)
    &&& forall|j1: int, j2: int| 0 <= j1 < j2 < blocks.len() ==> blocks[j1] != blocks[j2]
    &&& forall|j: int, k: int|
        0 <= j < blocks.len() && 0 <= k < PAGE_SIZE ==> #[trigger] a.frames@[blocks[j] as int].data[k]
            == encode_spec(padded_byte(data, j * PAGE_SIZE + k))
}

/// Releases every frame in `blocks`.
fn release_blocks(allocator: &mut MemoryAllocator, blocks: &Vec<usize>)
    requires
        old(allocator).wf(),
    ensures
        final(allocator).wf(),
        final(allocator).frames@ == old(allocator).frames@,
        forall|j: int|
            0 <= j < TOTAL_PAGES ==> #[trigger] final(allocator).allocation_map@[j]
                == owner_after_release(*old(allocator), blocks@, j),
{
    let mut t: usize = 0;
    while t < blocks.len()
        invariant
            allocator.wf(),
            t <= blocks@.len(),
            allocator.frames@ == old(allocator).frames@,
            forall|j: int|
                0 <= j < TOTAL_PAGES ==> #[trigger] allocator.allocation_map@[j] == owner_after_release(
                    *old(allocator),
                    blocks@.subrange(0, t as int),
                    j,
                ),
        decreases blocks@.len() - t,
    {
        let _ = allocator.deallocate_page(blocks[t]);
        proof {
            assert forall|j: int| 0 <= j < TOTAL_PAGES implies #[trigger] allocator.allocation_map@[j]
                == owner_after_release(*old(allocator), blocks@.subrange(0, t + 1), j) by {
                if in_blocks(blocks@.subrange(0, t as int), j) {
                    let k = choose|k: int| 0 <= k < t && #[trigger] blocks@.subrange(0, t as int)[k] == j;
                    assert(blocks@.subrange(0, t + 1)[k] == j);
                }
                if in_blocks(blocks@.subrange(0, t + 1), j) && j != blocks@[t as int] {
                    let k = choose|k: int| 0 <= k < t + 1 && #[trigger] blocks@.subrange(0, t + 1)[k] == j;
                    assert(blocks@.subrange(0, t as int)[k] == j);
                }
                if j == blocks@[t as int] {
                    assert(blocks@.subrange(0, t + 1)[t as int] == j);
                }
            }
        }
        t = t + 1;
    }
    assert(blocks@.subrange(0, blocks@.len() as int) =~= blocks@);
}


/// Number of frames for `len` bytes, rounded up, at least one.
fn blocks_for(len: usize) -> (n: usize)
    ensures
        n == block_count(len as nat),
        n >= 1,
        len > 0 ==> (n - 1) * PAGE_SIZE < len,
        n * PAGE_SIZE >= len,
{
    if len == 0 {
        1
    } else {
        len / PAGE_SIZE + if len % PAGE_SIZE != 0 {
            1
        } else {
            0
        }
    }
}

/// Takes `block_count(data.len())` frames for `pid`, lowest free first, and
/// writes `data` into them page by page, zero-padding the last page. When
/// the frames run out, the ones taken are released again.
fn allocate_and_fill(allocator: &mut MemoryAllocator, data: &[u8], pid: u32) -> (r: Result<
    Vec<usize>,
    &'static str,
>)
    requires
        old(allocator).wf(),
    ensures
        final(allocator).wf(),
        (r is Ok) == (free_count(*old(allocator), TOTAL_PAGES as int) >= block_count(data@.len())),
        r is Err ==> r == Err::<Vec<usize>, &'static str>(ERR_WRITE_OOM)
            && final(allocator).allocation_map@ == old(allocator).allocation_map@,
        r matches Ok(bs) ==> {
            &&& holds_data(*final(allocator), bs@, data@, pid)
            &&& forall|k: int| 0 <= k < bs@.len() ==> old(allocator).is_free(#[trigger] bs@[k] as int)
            &&& forall|j: int|
                0 <= j < TOTAL_PAGES && !in_blocks(bs@, j) ==> #[trigger] final(allocator).allocation_map@[j]
                    == old(allocator).allocation_map@[j] && final(allocator).frames@[j] == old(
                    allocator).frames@[j]
        },
{
    let len = data.len();
    let num_blocks = blocks_for(len);
    let mut blocks: Vec<usize> = Vec::new();
    let mut block_num: usize = 0;
    while block_num < num_blocks
        invariant
            allocator.wf(),
            old(allocator).wf(),
            len == data@.len(),
            num_blocks == block_count(len as nat),
            len > 0 ==> (num_blocks - 1) * PAGE_SIZE < len,
            block_num <= num_blocks,
            blocks@.len() == block_num,
            free_count(*allocator, TOTAL_PAGES as int) + block_num == free_count(
                *old(allocator),
                TOTAL_PAGES as int,
            ),
            forall|j: int|
                0 <= j < block_num ==> #[trigger] blocks@[j] < TOTAL_PAGES && allocator.allocation_map@[blocks@[j] as int]
                    == Some(pid) && old(allocator).is_free(blocks@[j] as int),
            forall|j1: int, j2: int| 0 <= j1 < j2 < block_num ==> blocks@[j1] != blocks@[j2],
            forall|j: int, k: int|
                0 <= j < block_num && 0 <= k < PAGE_SIZE ==> #[trigger] allocator.frames@[blocks@[j] as int].data[k]
                    == encode_spec(padded_byte(data@, j * PAGE_SIZE + k)),
            forall|j: int|
                0 <= j < TOTAL_PAGES && !in_blocks(blocks@, j) ==> #[trigger] allocator.allocation_map@[j]
                    == old(allocator).allocation_map@[j] && allocator.frames@[j] == old(
                    allocator).frames@[j],
        decreases num_blocks - block_num,
    {
        let ghost before = *allocator;
        let frame_idx = match allocator.allocate_page(pid) {
            Some(idx) => idx,
            None => {
                proof {
                    lemma_count_zero(|j: int| before.is_free(j), TOTAL_PAGES as int);
                    assert(free_count(before, TOTAL_PAGES as int) == 0);
                }
                release_blocks(allocator, &blocks);
                proof {
                    assert forall|j: int| 0 <= j < TOTAL_PAGES implies #[trigger] allocator.allocation_map@[j]
                        == old(allocator).allocation_map@[j] by {
                        if in_blocks(blocks@, j) {
                            let k = choose|k: int| 0 <= k < blocks@.len() && #[trigger] blocks@[k] == j;
                            assert(old(allocator).is_free(blocks@[k] as int));
                        }
                    }
                    assert(allocator.allocation_map@ =~= old(allocator).allocation_map@);
                }
                return Err(ERR_WRITE_OOM);
            },
        };
        proof {
            lemma_count_take(|j: int| before.is_free(j), |j: int| allocator.is_free(j), TOTAL_PAGES as int, frame_idx as int);
            if in_blocks(blocks@, frame_idx as int) {
                let k = choose|k: int| 0 <= k < blocks@.len() && #[trigger] blocks@[k] == frame_idx;
                assert(!before.is_free(blocks@[k] as int));
            }
            assert(old(allocator).is_free(frame_idx as int));
        }
        let ghost blocks_before = blocks@;
        blocks.push(frame_idx);
        let start = block_num * PAGE_SIZE;
        assert(len == 0 || start < len) by (nonlinear_arith)
            requires
                block_num < num_blocks,
                len > 0 ==> (num_blocks - 1) * PAGE_SIZE < len,
                start == block_num * PAGE_SIZE,
        ;
        let ghost mid = *allocator;
        for offset in 0..PAGE_SIZE
            invariant
                allocator.wf(),
                mid.wf(),
                frame_idx < TOTAL_PAGES,
                len == data@.len(),
                start == block_num * PAGE_SIZE,
                len == 0 || start < len,
                allocator.allocation_map@ == mid.allocation_map@,
                allocator.frames@[frame_idx as int].status == mid.frames@[frame_idx as int].status,
                mid.frames@[frame_idx as int].status != PageStatus::Quarantined,
                forall|j: int|
                    0 <= j < TOTAL_PAGES && j != frame_idx ==> #[trigger] allocator.frames@[j]
                        == mid.frames@[j],
                forall|k: int|
                    0 <= k < offset ==> #[trigger] allocator.frames@[frame_idx as int].data[k]
                        == encode_spec(padded_byte(data@, start + k)),
        {
            let byte_val = if len > 0 && offset < len - start {
                data[start + offset]
            } else {
                0
            };
            allocator.frames[frame_idx].write_byte(offset, byte_val)?;
        }
        proof {
            assert forall|j: int| 0 <= j < TOTAL_PAGES && !in_blocks(blocks@, j) implies #[trigger] allocator.allocation_map@[j]
                == old(allocator).allocation_map@[j] && allocator.frames@[j] == old(
                allocator).frames@[j] by {
                assert(j != frame_idx) by {
                    if j == frame_idx {
                        assert(blocks@[block_num as int] == j);
                    }
                }
                if in_blocks(blocks_before, j) {
                    let k = choose|k: int| 0 <= k < blocks_before.len() && #[trigger] blocks_before[k] == j;
                    assert(blocks@[k] == j);
                }
                assert(before.allocation_map@[j] == old(allocator).allocation_map@[j]);
                assert(allocator.frames@[j] == mid.frames@[j]);
            }
            lemma_count_same(|j: int| mid.is_free(j), |j: int| allocator.is_free(j), TOTAL_PAGES as int);
            assert forall|j: int, k: int|
                0 <= j < block_num + 1 && 0 <= k < PAGE_SIZE implies #[trigger] allocator.frames@[blocks@[j] as int].data[k]
                == encode_spec(padded_byte(data@, j * PAGE_SIZE + k)) by {
                if j < block_num {
                    assert(blocks@[j] == blocks_before[j]);
                    assert(blocks_before[j] != frame_idx);
                }
            }
        }
        block_num = block_num + 1;
    }
    assert(blocks@.len() == block_count(data@.len()));
    assert(forall|j: int| 0 <= j < blocks@.len() ==> #[trigger] blocks@[j] < TOTAL_PAGES && allocator.allocation_map@[blocks@[j] as int]
            == Some(pid));
    assert(forall|j1: int, j2: int| 0 <= j1 < j2 < blocks@.len() ==> blocks@[j1] != blocks@[j2]);
    assert(forall|j: int, k: int|
        0 <= j < blocks@.len() && 0 <= k < PAGE_SIZE ==> #[trigger] allocator.frames@[blocks@[j] as int].data[k]
            == encode_spec(padded_byte(data@, j * PAGE_SIZE + k)));
    assert(holds_data(*allocator, blocks@, data@, pid));
    assert(forall|k: int| 0 <= k < blocks@.len() ==> old(allocator).is_free(#[trigger] blocks@[k] as int));
    Ok(blocks)
}

impl VirtualFileSystem {

    /// What writing `data` to the file at `path` does: the file's old frames
    /// are released, then fresh frames are taken for the data; when too few
    /// are free the write fails (the file entry keeps its old, now released,
    /// block list).
    pub open spec fn write_outcome(
        &self,
        after: Self,
        a0: MemoryAllocator,
        a1: MemoryAllocator,
        path: Seq<char>,
        data: Seq<u8>,
        pid: u32,
        r: Result<(), &'static str>,
    ) -> bool {
        match self.resolve_spec(path) {
            Err(e) => r == Err::<(), &'static str>(e) && after == *self && a1 == a0,
            Ok(i) => match self.inodes@[i as int].inode_type {
                InodeType::Directory { .. } => r == Err::<(), &'static str>(ERR_WRITE_DIR) && after
                    == *self && a1 == a0,
                InodeType::File { blocks, size } => {
                    let avail = count_true(
                        |j: int| free_after_release(a0, blocks@, j),
                        TOTAL_PAGES as int,
                    );
                    &&& (r is Ok) == (avail >= block_count(data.len()))
                    &&& r is Err ==> r == Err::<(), &'static str>(ERR_WRITE_OOM) && after == *self
                        && forall|j: int|
                        0 <= j < TOTAL_PAGES ==> #[trigger] a1.allocation_map@[j]
                            == owner_after_release(a0, blocks@, j)
                    &&& r is Ok ==> {
                        &&& after.inodes@.len() == self.inodes@.len()
                        &&& forall|k: int|
                            0 <= k < self.inodes@.len() && k != i ==> #[trigger] after.inodes@[k]
                                == self.inodes@[k]
                        &&& after.inodes@[i as int].index == self.inodes@[i as int].index
                        &&& after.inodes@[i as int].name == self.inodes@[i as int].name
                        &&& after.inodes@[i as int].inode_type matches InodeType::File {
                            blocks: nb,
                            size: ns,
                        } && ns == data.len() && holds_data(a1, nb@, data, pid) && (forall|k: int|
                            0 <= k < nb@.len() ==> free_after_release(a0, blocks@, #[trigger] nb@[k] as int))
                            && (forall|j: int|
                            0 <= j < TOTAL_PAGES && !in_blocks(nb@, j) ==> #[trigger] a1.allocation_map@[j]
                                == owner_after_release(a0, blocks@, j) && a1.frames@[j] == a0.frames@[j])
                    }
                },
            },
        }
    }

    /// Replaces the contents of the file at `path` with `data`, stored in
    /// fresh frames owned by `pid`.
    pub fn write_file(
        &mut self,
        path: &str,
        data: &[u8],
        allocator: &mut MemoryAllocator,
        pid: u32,
    ) -> (r: Result<(), &'static str>)
        requires
            old(self).wf(),
            old(allocator).wf(),
        ensures
            final(self).wf(),
            final(allocator).wf(),
            old(self).write_outcome(
                *final(self),
                *old(allocator),
                *final(allocator),
                path@,
                data@,
                pid,
                r,
            ),
    {
        let inode_idx = self.resolve_path(path)?;
        match &self.inodes[inode_idx].inode_type {
            InodeType::File { blocks, .. } => {
                release_blocks(allocator, blocks);
            },
            InodeType::Directory { .. } => {
                return Err(ERR_WRITE_DIR);
            },
        }
        let ghost ob = self.inodes@[inode_idx as int].inode_type->blocks@;
        let ghost released = *allocator;
        proof {
            lemma_count_same(
                |j: int| free_after_release(*old(allocator), ob, j),
                |j: int| released.is_free(j),
                TOTAL_PAGES as int,
            );
        }
        let new_blocks = allocate_and_fill(allocator, data, pid)?;
        let ghost before = self.inodes@;
        self.inodes[inode_idx].inode_type = InodeType::File { blocks: new_blocks, size: data.len() };
        proof {
            assert forall|i: int, k: int|
                0 <= i < self.inodes@.len() && self.inodes@[i].inode_type is File && 0 <= k
                    < self.inodes@[i].inode_type->blocks@.len() implies #[trigger] self.inodes@[i].inode_type->blocks@[k]
                < TOTAL_PAGES by {
                if i != inode_idx {
                    assert(self.inodes@[i] == before[i]);
                }
            }
            assert forall|i: int, j: int|
                0 <= i < self.inodes@.len() && self.inodes@[i].inode_type is Directory && 0 <= j
                    < self.inodes@[i].inode_type->entries@.len() implies #[trigger] self.inodes@[i].inode_type->entries@[j].1
                < self.inodes@.len() by {
                assert(self.inodes@[i] == before[i]);
            }
        }
        Ok(())
    }
}


/// Readable length of a file: its size, capped by the capacity of its blocks.
pub open spec fn readable_len(blocks: Seq<usize>, size: nat) -> nat {
    if size <= blocks.len() * PAGE_SIZE {
        size
    } else {
        (blocks.len() * PAGE_SIZE) as nat
    }
}

/// The word holding byte `x` of a file.
pub open spec fn file_word(a: MemoryAllocator, blocks: Seq<usize>, x: int) -> u16 {
    a.frames@[blocks[x / (PAGE_SIZE as int)] as int].data[x % (PAGE_SIZE as int)]
}

/// The bytes of a file as salvaged from its frames: byte `x` lives at
/// offset `x % PAGE_SIZE` of block `x / PAGE_SIZE`.
pub open spec fn file_bytes(a: MemoryAllocator, blocks: Seq<usize>, size: nat) -> Seq<u8> {
    Seq::new(readable_len(blocks, size), |x: int| recovered_byte(file_word(a, blocks, x)))
}

/// No word in the readable range of the file is uncorrectable.
pub open spec fn file_decodable(a: MemoryAllocator, blocks: Seq<usize>, size: nat) -> bool {
    forall|x: int|
        0 <= x < readable_len(blocks, size) ==> !((#[trigger] decode_spec(file_word(a, blocks, x)))
            is Uncorrectable)
}

/// The file's blocks are distinct frames, each owned.
pub open spec fn blocks_owned(a: MemoryAllocator, blocks: Seq<usize>) -> bool {
    &&& forall|j: int|
        0 <= j < blocks.len() ==> #[trigger] blocks[j] < TOTAL_PAGES && a.allocation_map@[blocks[j] as int] is Some
    &&& forall|j1: int, j2: int| 0 <= j1 < j2 < blocks.len() ==> blocks[j1] != blocks[j2]
}

/// No uncorrectable word appears where `a` had a decodable one.
pub open spec fn no_new_damage(a: MemoryAllocator, b: MemoryAllocator) -> bool {
    forall|f: int, k: int|
        0 <= f < TOTAL_PAGES && 0 <= k < PAGE_SIZE && !(decode_spec(a.frames@[f].data[k]) is Uncorrectable)
            ==> !((#[trigger] decode_spec(b.frames@[f].data[k])) is Uncorrectable)
}

/// Every frame other than `frame` that is not free in `a` is unchanged in `b`.
pub open spec fn untouched(a: MemoryAllocator, b: MemoryAllocator, frame: int) -> bool {
    forall|g: int|
        0 <= g < TOTAL_PAGES && g != frame && !a.is_free(g) ==> #[trigger] b.frames@[g] == a.frames@[g]
            && b.allocation_map@[g] == a.allocation_map@[g]
}

proof fn lemma_untouched_step(a: MemoryAllocator, b: MemoryAllocator, c: MemoryAllocator, frame: int, fi: int)
    requires
        untouched(a, b, frame),
        b.frames@.len() == TOTAL_PAGES,
        c.frames@.len() == TOTAL_PAGES,
        c.allocation_map@ == b.allocation_map@,
        forall|g: int| 0 <= g < TOTAL_PAGES && g != fi ==> #[trigger] c.frames@[g] == b.frames@[g],
        fi == frame || a.is_free(fi),
    ensures
        untouched(a, c, frame),
{
    assert forall|g: int|
        0 <= g < TOTAL_PAGES && g != frame && !a.is_free(g) implies #[trigger] c.frames@[g] == a.frames@[g]
            && c.allocation_map@[g] == a.allocation_map@[g] by {
        assert(b.frames@[g] == a.frames@[g]);
    }
}

/// What reading a block does to the memory: only the block's frame and,
/// when it is relocated, the frame it moves to change; a relocation
/// happens whenever the block is owned and another frame is free, and it
/// hands the owner over to a formerly free frame, quarantines and releases
/// the block's frame, and uses up exactly one free frame.
#[verifier::opaque]
pub open spec fn block_moves(
    a0: MemoryAllocator,
    a1: MemoryAllocator,
    frame: usize,
    r: Result<(usize, usize), &'static str>,
) -> bool {
    &&& forall|g: int|
        0 <= g < TOTAL_PAGES && g != frame && !(r matches Ok((f, _)) && f == g) ==> #[trigger] a1.frames@[g]
            == a0.frames@[g] && a1.allocation_map@[g] == a0.allocation_map@[g]
    &&& a0.allocation_map@[frame as int] is Some && (exists|g: int|
        0 <= g < TOTAL_PAGES && g != frame && a0.is_free(g)) ==> r is Ok
    &&& match r {
        Ok((f, _)) => f < TOTAL_PAGES && (f != frame ==> (a0.is_free(f as int)
            && a1.allocation_map@[f as int] == a0.allocation_map@[frame as int]
            && a1.allocation_map@[frame as int] is None && a1.frames@[frame as int].status
            == PageStatus::Quarantined)) && (f == frame ==> a1.allocation_map@ == a0.allocation_map@),
        Err(_) => true,
    }
    &&& a0.allocation_map@[frame as int] is Some && r is Ok ==> free_count(a1, TOTAL_PAGES as int)
        + 1 >= free_count(a0, TOTAL_PAGES as int)
}

/// Block `q` of a file of `size` bytes held in frames `ob` has an
/// uncorrectable word among the bytes the file uses.
pub open spec fn damaged_block(a: MemoryAllocator, ob: Seq<usize>, size: nat, q: int) -> bool {
    exists|k: int|
        0 <= k < PAGE_SIZE && q * PAGE_SIZE + k < size && (#[trigger] decode_spec(
            a.frames@[ob[q] as int].data[k],
        )) is Uncorrectable
}

/// Every word in the readable range of the file decodes without repair.
pub open spec fn file_pristine(a: MemoryAllocator, blocks: Seq<usize>, size: nat) -> bool {
    forall|x: int|
        0 <= x < readable_len(blocks, size) ==> (#[trigger] decode_spec(file_word(a, blocks, x)))
            is NoError
}

/// Among the first `j` blocks, each one moved from frame `ob[q]` to frame
/// `nb[q]` took a frame free in `a0`, handed it the owner, and left the old
/// frame quarantined and released; each one that stayed keeps its owner.
pub open spec fn blocks_moved(
    a0: MemoryAllocator,
    a: MemoryAllocator,
    ob: Seq<usize>,
    nb: Seq<usize>,
    j: int,
) -> bool {
    forall|q: int|
        0 <= q < j ==> if #[trigger] nb[q] != ob[q] {
            &&& nb[q] < TOTAL_PAGES
            &&& a0.is_free(nb[q] as int)
            &&& a.allocation_map@[nb[q] as int] == a0.allocation_map@[ob[q] as int]
            &&& a.allocation_map@[ob[q] as int] is None
            &&& a.frames@[ob[q] as int].status == PageStatus::Quarantined
        } else {
            a.allocation_map@[ob[q] as int] == a0.allocation_map@[ob[q] as int]
        }
}

/// The first `j` blocks, now in frames `nb`, hold the salvageable bytes
/// that frames `ob` held in `a0`.
pub open spec fn contents_kept(a0: MemoryAllocator, a: MemoryAllocator, ob: Seq<usize>, nb: Seq<usize>, j: int) -> bool {
    forall|q: int| 0 <= q < j ==> same_contents(a.frames@[#[trigger] nb[q] as int], a0.frames@[ob[q] as int])
}

/// Frames that are neither an old nor a new block of the file are as in `a0`.
pub open spec fn outside_same(a0: MemoryAllocator, a: MemoryAllocator, ob: Seq<usize>, nb: Seq<usize>) -> bool {
    forall|g: int|
        0 <= g < TOTAL_PAGES && !in_blocks(ob, g) && !in_blocks(nb, g) ==> #[trigger] a.frames@[g]
            == a0.frames@[g] && a.allocation_map@[g] == a0.allocation_map@[g]
}

/// No frame is free in `a` that was not free in `a0`.
pub open spec fn free_shrinks(a0: MemoryAllocator, a: MemoryAllocator) -> bool {
    forall|g: int| 0 <= g < TOTAL_PAGES && #[trigger] a.is_free(g) ==> a0.is_free(g)
}

/// Reading block `j` of an owned file keeps the bookkeeping of moved
/// blocks.
proof fn lemma_read_step(
    a0: MemoryAllocator,
    b: MemoryAllocator,
    c: MemoryAllocator,
    ob: Seq<usize>,
    nb: Seq<usize>,
    j: int,
    f: usize,
    br: usize,
)
    requires
        blocks_owned(a0, ob),
        0 <= j < ob.len(),
        nb.len() == ob.len(),
        forall|q: int| j <= q < ob.len() ==> #[trigger] nb[q] == ob[q],
        rest_kept(a0, b, ob, j),
        blocks_moved(a0, b, ob, nb, j),
        outside_same(a0, b, ob, nb),
        free_shrinks(a0, b),
        block_moves(b, c, ob[j], Ok::<(usize, usize), &'static str>((f, br))),
        contents_kept(a0, b, ob, nb, j),
        same_contents(c.frames@[f as int], b.frames@[ob[j] as int]),
        forall|q1: int, q2: int| 0 <= q1 < q2 < nb.len() ==> nb[q1] != nb[q2],
    ensures
        forall|q1: int, q2: int| 0 <= q1 < q2 < nb.len() ==> nb.update(j, f)[q1] != nb.update(j, f)[q2],
        contents_kept(a0, c, ob, nb.update(j, f), j + 1),
        blocks_moved(a0, c, ob, nb.update(j, f), j + 1),
        outside_same(a0, c, ob, nb.update(j, f)),
        free_shrinks(a0, c),
        free_count(c, TOTAL_PAGES as int) + 1 >= free_count(b, TOTAL_PAGES as int),
{
    reveal(block_moves);
    let fr = ob[j];
    let nb2 = nb.update(j, f);
    if f != fr {
        assert(b.is_free(f as int));
        assert forall|q: int| 0 <= q < nb.len() && q != j implies #[trigger] nb[q] != f by {
            assert(ob[q] < TOTAL_PAGES);
            if q > j {
                assert(b.frames@[ob[q] as int] == a0.frames@[ob[q] as int]);
                assert(b.allocation_map@[ob[q] as int] is Some);
            } else if nb[q] != ob[q] {
                assert(b.allocation_map@[nb[q] as int] is Some);
            } else {
                assert(b.allocation_map@[ob[q] as int] is Some);
            }
        }
    }
    assert forall|q1: int, q2: int| 0 <= q1 < q2 < nb.len() implies nb2[q1] != nb2[q2] by {
        if q1 == j {
            assert(nb[q2] != f || f == fr);
        } else if q2 == j {
            assert(nb[q1] != f || f == fr);
        }
    }
    assert(fr < TOTAL_PAGES);
    assert(b.frames@[ob[j] as int] == a0.frames@[ob[j] as int]);
    assert(b.allocation_map@[fr as int] == a0.allocation_map@[fr as int]);
    assert(!a0.is_free(fr as int));
    assert forall|q: int| 0 <= q < j + 1 implies if #[trigger] nb2[q] != ob[q] {
        &&& nb2[q] < TOTAL_PAGES
        &&& a0.is_free(nb2[q] as int)
        &&& c.allocation_map@[nb2[q] as int] == a0.allocation_map@[ob[q] as int]
        &&& c.allocation_map@[ob[q] as int] is None
        &&& c.frames@[ob[q] as int].status == PageStatus::Quarantined
    } else {
        c.allocation_map@[ob[q] as int] == a0.allocation_map@[ob[q] as int]
    } by {
        if q < j {
            assert(ob[q] != fr);
            assert(ob[q] < TOTAL_PAGES);
            assert(nb2[q] == nb[q]);
            if nb[q] != ob[q] {
                assert(a0.is_free(nb[q] as int));
                assert(nb[q] != fr);
                assert(b.allocation_map@[nb[q] as int] is Some);
                assert(!b.is_free(nb[q] as int));
                assert(!b.is_free(ob[q] as int));
                assert(nb[q] != f);
                assert(ob[q] != f);
                assert(c.frames@[nb[q] as int] == b.frames@[nb[q] as int]);
                assert(c.allocation_map@[nb[q] as int] == b.allocation_map@[nb[q] as int]);
                assert(c.allocation_map@[ob[q] as int] == b.allocation_map@[ob[q] as int]);
                assert(c.frames@[ob[q] as int] == b.frames@[ob[q] as int]);
            } else {
                assert(b.allocation_map@[ob[q] as int] is Some);
                assert(!b.is_free(ob[q] as int));
                if f != fr {
                    assert(ob[q] != f);
                }
                assert(c.allocation_map@[ob[q] as int] == b.allocation_map@[ob[q] as int]);
            }
        } else {
            assert(nb2[q] == f);
            if f != fr {
                assert(b.is_free(f as int));
                assert(a0.is_free(f as int));
            } else {
                assert(c.allocation_map@ == b.allocation_map@);
            }
        }
    }
    assert forall|g: int|
        0 <= g < TOTAL_PAGES && !in_blocks(ob, g) && !in_blocks(nb2, g) implies #[trigger] c.frames@[g]
            == a0.frames@[g] && c.allocation_map@[g] == a0.allocation_map@[g] by {
        assert(g != fr) by {
            assert(ob[j] == fr);
        }
        assert(g != f) by {
            assert(nb2[j] == f);
        }
        assert(!in_blocks(nb, g)) by {
            if in_blocks(nb, g) {
                let k = choose|k: int| 0 <= k < nb.len() && #[trigger] nb[k] == g;
                if k == j {
                    assert(ob[j] == g);
                } else {
                    assert(nb2[k] == g);
                }
            }
        }
        assert(b.frames@[g] == a0.frames@[g]);
        assert(c.frames@[g] == b.frames@[g]);
    }
    assert forall|g: int| 0 <= g < TOTAL_PAGES && #[trigger] c.is_free(g) implies a0.is_free(g) by {
        if g != fr && g != f {
            assert(b.is_free(g));
        }
    }
    assert forall|q: int| 0 <= q < j + 1 implies same_contents(
        c.frames@[#[trigger] nb2[q] as int],
        a0.frames@[ob[q] as int],
    ) by {
        if q < j {
            assert(nb2[q] == nb[q]);
            assert(same_contents(b.frames@[nb[q] as int], a0.frames@[ob[q] as int]));
            if nb[q] != ob[q] {
                assert(a0.is_free(nb[q] as int));
                assert(nb[q] != fr);
                assert(b.allocation_map@[nb[q] as int] is Some);
                assert(nb[q] != f);
            } else {
                assert(ob[q] != fr);
                assert(b.allocation_map@[ob[q] as int] is Some);
                if f != fr {
                    assert(b.is_free(f as int));
                    assert(ob[q] != f);
                }
            }
            assert(c.frames@[nb[q] as int] == b.frames@[nb[q] as int]);
        } else {
            assert(nb2[q] == f);
        }
    }
}

/// With a free frame left, block `j` of an owned file can always be read:
/// its frame is owned and some other frame is free.
proof fn lemma_read_ok(a0: MemoryAllocator, b: MemoryAllocator, ob: Seq<usize>, j: int)
    requires
        blocks_owned(a0, ob),
        0 <= j < ob.len(),
        rest_kept(a0, b, ob, j),
        free_count(b, TOTAL_PAGES as int) >= 1,
    ensures
        b.allocation_map@[ob[j] as int] is Some,
        exists|g: int| 0 <= g < TOTAL_PAGES && g != ob[j] && b.is_free(g),
{
    assert(b.frames@[ob[j] as int] == a0.frames@[ob[j] as int]);
    lemma_count_zero(|g: int| b.is_free(g), TOTAL_PAGES as int);
    let g = choose|g: int| 0 <= g < TOTAL_PAGES && b.is_free(g);
    assert(b.is_free(g));
}

/// Reads bytes of frame `frame` from offset 0 until the page ends or
/// `size` bytes have been read in all, appending them to `out`. An
/// uncorrectable word moves the page to a fresh frame and the read resumes
/// there. Returns the frame finally read and the new byte count.
#[verifier::rlimit(100)]
#[verifier::spinoff_prover]
fn read_block(
    allocator: &mut MemoryAllocator,
    frame: usize,
    bytes_read: usize,
    size: usize,
    out: &mut Vec<u8>,
) -> (r: Result<(usize, usize), &'static str>)
    requires
        old(allocator).wf(),
        frame < TOTAL_PAGES,
        bytes_read <= size,
    ensures
        final(allocator).wf(),
        no_new_damage(*old(allocator), *final(allocator)),
        untouched(*old(allocator), *final(allocator), frame as int),
        ({
            let taken = if size - bytes_read <= PAGE_SIZE { size - bytes_read } else { PAGE_SIZE as int };
            &&& (forall|k: int|
                0 <= k < taken ==> !((#[trigger] decode_spec(old(allocator).frames@[frame as int].data[k]))
                    is Uncorrectable)) ==> r == Ok::<(usize, usize), &'static str>((frame, (bytes_read + taken) as usize))
            &&& r matches Ok((f, br)) ==> f < TOTAL_PAGES && br == bytes_read + taken && final(out)@
                == old(out)@ + Seq::new(
                taken as nat,
                |k: int| recovered_byte(old(allocator).frames@[frame as int].data[k]),
            )
            &&& (forall|k: int|
                0 <= k < taken ==> (#[trigger] decode_spec(old(allocator).frames@[frame as int].data[k]))
                    is NoError) ==> final(allocator).frames@ == old(allocator).frames@
                && final(allocator).allocation_map@ == old(allocator).allocation_map@
        }),
        block_moves(*old(allocator), *final(allocator), frame, r),
        r matches Ok((f, _)) ==> same_contents(final(allocator).frames@[f as int], old(allocator).frames@[frame as int]),
        ({
            let taken = if size - bytes_read <= PAGE_SIZE { size - bytes_read } else { PAGE_SIZE as int };
            (exists|k: int|
                0 <= k < taken && (#[trigger] decode_spec(old(allocator).frames@[frame as int].data[k]))
                    is Uncorrectable) ==> (r matches Ok((f, _)) ==> f != frame)
        }),
{
    let ghost a0 = *old(allocator);
    let ghost out0 = out@;
    let ghost taken = if size - bytes_read <= PAGE_SIZE { size - bytes_read } else { PAGE_SIZE as int };
    let mut frame_idx = frame;
    let mut offset: usize = 0;
    let mut count = bytes_read;
    let ghost mut clean = false;
    while offset < PAGE_SIZE && count < size
        invariant
            allocator.wf(),
            a0.wf(),
            a0 == *old(allocator),
            frame < TOTAL_PAGES,
            frame_idx < TOTAL_PAGES,
            offset <= PAGE_SIZE,
            bytes_read <= count <= size,
            count == bytes_read + offset,
            offset <= taken,
            taken == if size - bytes_read <= PAGE_SIZE { size - bytes_read } else { PAGE_SIZE as int },
            no_new_damage(a0, *allocator),
            clean ==> frame_clean(allocator.frames@[frame_idx as int]),
            !clean ==> frame_idx == frame,
            frame_idx != frame ==> a0.is_free(frame_idx as int),
            forall|k: int|
                offset <= k < PAGE_SIZE ==> #[trigger] recovered_byte(allocator.frames@[frame_idx as int].data[k])
                    == recovered_byte(a0.frames@[frame as int].data[k]),
            untouched(a0, *allocator, frame as int),
            out@ == out0 + Seq::new(offset as nat, |k: int| recovered_byte(a0.frames@[frame as int].data[k])),
            (forall|k: int|
                0 <= k < taken ==> !((#[trigger] decode_spec(a0.frames@[frame as int].data[k]))
                    is Uncorrectable)) ==> !clean,
            forall|g: int|
                0 <= g < TOTAL_PAGES && g != frame && g != frame_idx ==> #[trigger] allocator.frames@[g]
                    == a0.frames@[g] && allocator.allocation_map@[g] == a0.allocation_map@[g],
            !clean ==> allocator.allocation_map@ == a0.allocation_map@,
            clean ==> frame_idx != frame && a0.is_free(frame_idx as int)
                && allocator.allocation_map@[frame_idx as int] == a0.allocation_map@[frame as int]
                && allocator.allocation_map@[frame as int] is None
                && allocator.frames@[frame as int].status == PageStatus::Quarantined,
            (forall|k: int|
                0 <= k < taken ==> (#[trigger] decode_spec(a0.frames@[frame as int].data[k]))
                    is NoError) ==> allocator.frames@ == a0.frames@,
            same_contents(allocator.frames@[frame_idx as int], a0.frames@[frame as int]),
            !clean ==> forall|k: int|
                offset <= k < PAGE_SIZE ==> #[trigger] allocator.frames@[frame as int].data[k]
                    == a0.frames@[frame as int].data[k],
            !clean ==> forall|k: int|
                0 <= k < offset ==> !((#[trigger] decode_spec(a0.frames@[frame as int].data[k]))
                    is Uncorrectable),
        decreases (PAGE_SIZE - offset) * 2 + if clean { 0int } else { 1int },
    {
        let ghost before = *allocator;
        assert(allocator.frames@[frame_idx as int].index == frame_idx);
        let res = allocator.frames[frame_idx].read_byte(offset);
        match res {
            Ok((byte_val, _)) => {
                proof {
                    let w = before.frames@[frame_idx as int].data[offset as int];
                    if let DecodeResult::Corrected(v, _) = decode_spec(w) {
                        lemma_decode_encode(v);
                    }
                    assert(recovered_byte(w) == byte_val);
                    assert forall|k: int| offset + 1 <= k < PAGE_SIZE implies #[trigger] recovered_byte(
                        allocator.frames@[frame_idx as int].data[k],
                    ) == recovered_byte(a0.frames@[frame as int].data[k]) by {
                        assert(allocator.frames@[frame_idx as int].data[k] == before.frames@[frame_idx as int].data[k]);
                    }
                    assert forall|f: int, k: int|
                        0 <= f < TOTAL_PAGES && 0 <= k < PAGE_SIZE && !(decode_spec(a0.frames@[f].data[k])
                            is Uncorrectable) implies !((#[trigger] decode_spec(allocator.frames@[f].data[k]))
                        is Uncorrectable) by {
                        assert(!(decode_spec(before.frames@[f].data[k]) is Uncorrectable));
                        if f == frame_idx && k == offset {
                            if let DecodeResult::Corrected(v, _) = decode_spec(w) {
                                lemma_decode_encode(v);
                            }
                        }
                    }
                    assert forall|k: int| 0 <= k < PAGE_SIZE implies #[trigger] recovered_byte(
                        allocator.frames@[frame_idx as int].data[k],
                    ) == recovered_byte(a0.frames@[frame as int].data[k]) by {
                        assert(recovered_byte(before.frames@[frame_idx as int].data[k]) == recovered_byte(
                            a0.frames@[frame as int].data[k],
                        ));
                        if k != offset {
                            assert(allocator.frames@[frame_idx as int].data[k] == before.frames@[frame_idx as int].data[k]);
                        } else {
                            if let DecodeResult::Corrected(v, _) = decode_spec(w) {
                                lemma_decode_encode(v);
                            }
                        }
                    }
                    if clean {
                        assert forall|k: int| 0 <= k < PAGE_SIZE implies (#[trigger] decode_spec(
                            allocator.frames@[frame_idx as int].data[k],
                        )) is NoError by {
                            assert(allocator.frames@[frame_idx as int].data[k] == before.frames@[frame_idx as int].data[k]);
                        }
                    }
                    lemma_untouched_step(a0, before, *allocator, frame as int, frame_idx as int);
                    assert(out@.push(byte_val) =~= out0 + Seq::new(
                        (offset + 1) as nat,
                        |k: int| recovered_byte(a0.frames@[frame as int].data[k]),
                    ));
                }
                proof {
                    assert forall|g: int|
                        0 <= g < TOTAL_PAGES && g != frame && g != frame_idx implies #[trigger] allocator.frames@[g]
                            == a0.frames@[g] && allocator.allocation_map@[g] == a0.allocation_map@[g] by {
                        assert(allocator.frames@[g] == before.frames@[g]);
                    }
                    if forall|k: int|
                        0 <= k < taken ==> (#[trigger] decode_spec(a0.frames@[frame as int].data[k]))
                            is NoError {
                        assert(decode_spec(a0.frames@[frame as int].data[offset as int]) is NoError);
                        assert(allocator.frames@ =~= a0.frames@);
                    }
                }
                let ghost after_read = *allocator;
                out.push(byte_val);
                assert(*allocator == after_read);
                count = count + 1;
                offset = offset + 1;
            },
            Err(damaged_idx) => {
                proof {
                    assert(!clean);
                }
                let ghost am = *allocator;
                let relocated = allocator.relocate_and_quarantine(damaged_idx);
                let new_frame_idx = match relocated {
                    Ok(n) => n,
                    Err(e) => {
                        proof {
                            assert forall|g: int|
                                0 <= g < TOTAL_PAGES && g != frame && !a0.is_free(g) implies #[trigger] allocator.frames@[g]
                                == a0.frames@[g] && allocator.allocation_map@[g] == a0.allocation_map@[g] by {
                                assert(before.frames@[g] == a0.frames@[g]);
                            }
                            assert forall|g: int| 0 <= g < TOTAL_PAGES && g != frame implies #[trigger] allocator.frames@[g]
                                == a0.frames@[g] && allocator.allocation_map@[g] == a0.allocation_map@[g] by {
                                assert(before.frames@[g] == a0.frames@[g]);
                            }
                            if exists|g: int| 0 <= g < TOTAL_PAGES && g != frame && a0.is_free(g) {
                                let g = choose|g: int| 0 <= g < TOTAL_PAGES && g != frame && a0.is_free(g);
                                assert(before.frames@[g] == a0.frames@[g]);
                                assert(am.frames@[g] == before.frames@[g]);
                                assert(am.is_free(g));
                            }
                            assert(damaged_idx == frame);
                            assert(before.allocation_map@ == a0.allocation_map@);
                            reveal(block_moves);
                            assert(block_moves(a0, *allocator, frame, Err(e)));
                            assert forall|f: int, k: int|
                                0 <= f < TOTAL_PAGES && 0 <= k < PAGE_SIZE && !(decode_spec(a0.frames@[f].data[k])
                                    is Uncorrectable) implies !((#[trigger] decode_spec(allocator.frames@[f].data[k]))
                                is Uncorrectable) by {
                                assert(!(decode_spec(before.frames@[f].data[k]) is Uncorrectable));
                                if f != frame_idx {
                                    assert(allocator.frames@[f] == before.frames@[f]);
                                }
                            }
                        }
                        return Err(e);
                    },
                };
                proof {
                    let n = new_frame_idx as int;
                    assert forall|k: int| 0 <= k < PAGE_SIZE implies (#[trigger] decode_spec(
                        allocator.frames@[n].data[k],
                    )) is NoError && recovered_byte(allocator.frames@[n].data[k]) == recovered_byte(
                        before.frames@[frame_idx as int].data[k],
                    ) by {
                        lemma_decode_encode(recovered_byte(before.frames@[frame_idx as int].data[k]));
                    }
                    assert forall|k: int| 0 <= k < PAGE_SIZE implies #[trigger] recovered_byte(
                        allocator.frames@[n].data[k],
                    ) == recovered_byte(a0.frames@[frame as int].data[k]) by {
                        assert(recovered_byte(before.frames@[frame_idx as int].data[k]) == recovered_byte(
                            a0.frames@[frame as int].data[k],
                        ));
                        assert(recovered_byte(allocator.frames@[n].data[k]) == recovered_byte(
                            before.frames@[frame_idx as int].data[k],
                        ));
                    }
                    assert forall|f: int, k: int|
                        0 <= f < TOTAL_PAGES && 0 <= k < PAGE_SIZE && !(decode_spec(a0.frames@[f].data[k])
                            is Uncorrectable) implies !((#[trigger] decode_spec(allocator.frames@[f].data[k]))
                        is Uncorrectable) by {
                        assert(!(decode_spec(before.frames@[f].data[k]) is Uncorrectable));
                        if f != n && f != frame_idx {
                            assert(allocator.frames@[f] == before.frames@[f]);
                        }
                    }
                    assert forall|g: int|
                        0 <= g < TOTAL_PAGES && g != frame && !a0.is_free(g) implies #[trigger] allocator.frames@[g]
                        == a0.frames@[g] && allocator.allocation_map@[g] == a0.allocation_map@[g] by {
                        assert(before.frames@[g] == a0.frames@[g]);
                        assert(before.allocation_map@[g] == a0.allocation_map@[g]);
                        assert(!before.is_free(g));
                        assert(g != n);
                        assert(g != damaged_idx);
                    }
                    if n != frame {
                        if !a0.is_free(n) {
                            assert(before.frames@[n] == a0.frames@[n]);
                        }
                    }
                    if forall|k: int|
                        0 <= k < taken ==> !((#[trigger] decode_spec(a0.frames@[frame as int].data[k]))
                            is Uncorrectable) {
                        assert(!(decode_spec(a0.frames@[frame as int].data[offset as int]) is Uncorrectable));
                        assert(false);
                    }
                }
                proof {
                    let n = new_frame_idx as int;
                    assert forall|g: int|
                        0 <= g < TOTAL_PAGES && g != frame && g != n implies #[trigger] allocator.frames@[g]
                            == a0.frames@[g] && allocator.allocation_map@[g] == a0.allocation_map@[g] by {
                        assert(before.frames@[g] == a0.frames@[g]);
                    }
                    assert(before.frames@[n] == a0.frames@[n]);
                    assert(a0.is_free(n));
                }
                frame_idx = new_frame_idx;
                proof {
                    clean = true;
                }
            },
        }
    }
    proof {
        assert(offset == taken);
        let a1 = *allocator;
        if exists|k: int|
            0 <= k < taken && (#[trigger] decode_spec(a0.frames@[frame as int].data[k])) is Uncorrectable {
            assert(clean);
        }
        if a0.allocation_map@[frame as int] is Some {
            assert forall|g: int| 0 <= g < TOTAL_PAGES && g != frame_idx implies #[trigger] a0.is_free(g)
                == a1.is_free(g) by {
                if g != frame {
                    assert(a1.frames@[g] == a0.frames@[g]);
                }
            }
            if clean {
                lemma_count_take(
                    |g: int| a0.is_free(g),
                    |g: int| a1.is_free(g),
                    TOTAL_PAGES as int,
                    frame_idx as int,
                );
            } else {
                lemma_count_same(|g: int| a0.is_free(g), |g: int| a1.is_free(g), TOTAL_PAGES as int);
            }
        }
        reveal(block_moves);
        assert(block_moves(a0, a1, frame, Ok((frame_idx, count))));
    }
    Ok((frame_idx, count))
}

impl VirtualFileSystem {

    /// What reading the file at `path` yields: its bytes as salvaged from its
    /// frames. An uncorrectable word moves that block to a fresh frame (the
    /// file's block list is updated); a file with no uncorrectable word in
    /// range is always read successfully and keeps its blocks.
    pub open spec fn read_outcome(
        &self,
        after: Self,
        a0: MemoryAllocator,
        a1: MemoryAllocator,
        path: Seq<char>,
        r: Result<Vec<u8>, &'static str>,
    ) -> bool {
        match self.resolve_spec(path) {
            Err(e) => r == Err::<Vec<u8>, &'static str>(e) && after == *self && a1 == a0,
            Ok(i) => match self.inodes@[i as int].inode_type {
                InodeType::Directory { .. } => r == Err::<Vec<u8>, &'static str>(ERR_READ_DIR) && after
                    == *self && a1 == a0,
                InodeType::File { blocks, size } => {
                    &&& r is Err ==> after == *self
                    &&& blocks_owned(a0, blocks@) ==> (r matches Ok(v) ==> v@ == file_bytes(a0, blocks@, size as nat))
                    &&& r is Ok ==> {
                        &&& no_new_damage(a0, a1)
                        &&& after.inodes@.len() == self.inodes@.len()
                        &&& forall|k: int|
                            0 <= k < self.inodes@.len() && k != i ==> #[trigger] after.inodes@[k]
                                == self.inodes@[k]
                        &&& after.inodes@[i as int].index == self.inodes@[i as int].index
                        &&& after.inodes@[i as int].name == self.inodes@[i as int].name
                        &&& after.inodes@[i as int].inode_type matches InodeType::File {
                            blocks: nb,
                            size: ns,
                        } && ns == size && nb@.len() == blocks@.len()
                    }
                    &&& file_decodable(a0, blocks@, size as nat) ==> r is Ok
                        && after.inodes@[i as int].inode_type->blocks@ == blocks@
                    &&& blocks_owned(a0, blocks@) && free_count(a0, TOTAL_PAGES as int) >= blocks@.len()
                        ==> r is Ok
                    &&& blocks_owned(a0, blocks@) && r is Ok ==> {
                        let nb = after.inodes@[i as int].inode_type->blocks@;
                        &&& blocks_moved(a0, a1, blocks@, nb, blocks@.len() as int)
                        &&& contents_kept(a0, a1, blocks@, nb, blocks@.len() as int)
                        &&& free_count(a1, TOTAL_PAGES as int) + blocks@.len() >= free_count(a0, TOTAL_PAGES as int)
                        &&& blocks_owned(a1, nb)
                        &&& forall|q: int|
                            0 <= q < blocks@.len() && damaged_block(a0, blocks@, size as nat, q)
                                ==> #[trigger] nb[q] != blocks@[q]
                        &&& outside_same(a0, a1, blocks@, nb)
                        &&& free_shrinks(a0, a1)
                    }
                    &&& file_pristine(a0, blocks@, size as nat) ==> a1.frames@ == a0.frames@
                        && a1.allocation_map@ == a0.allocation_map@
                },
            },
        }
    }

    /// Reads the whole file at `path`, repairing single-bit flips and
    /// relocating blocks with uncorrectable words on the way.
    #[verifier::rlimit(60)]
    #[verifier::spinoff_prover]
    pub fn read_file(&mut self, path: &str, allocator: &mut MemoryAllocator) -> (r: Result<
        Vec<u8>,
        &'static str,
    >)
        requires
            old(self).wf(),
            old(allocator).wf(),
        ensures
            final(self).wf(),
            final(allocator).wf(),
            old(self).read_outcome(*final(self), *old(allocator), *final(allocator), path@, r),
    {
        let inode_idx = self.resolve_path(path)?;
        let size = match &self.inodes[inode_idx].inode_type {
            InodeType::File { size, .. } => *size,
            InodeType::Directory { .. } => {
                return Err(ERR_READ_DIR);
            },
        };
        let ghost ob = self.inodes@[inode_idx as int].inode_type->blocks@;
        let ghost a0 = *allocator;
        let ghost owned = blocks_owned(a0, ob);
        let ghost decodable = file_decodable(a0, ob, size as nat);
        let ghost pristine = file_pristine(a0, ob, size as nat);
        let mut blocks: Vec<usize> = Vec::new();
        match &self.inodes[inode_idx].inode_type {
            InodeType::File { blocks: bs, .. } => {
                let mut t: usize = 0;
                while t < bs.len()
                    invariant
                        t <= bs@.len(),
                        blocks@ == bs@.subrange(0, t as int),
                    decreases bs@.len() - t,
                {
                    blocks.push(bs[t]);
                    t = t + 1;
                }
                assert(blocks@ =~= bs@);
            },
            InodeType::Directory { .. } => {},
        }
        proof {
            assert forall|q: int| 0 <= q < ob.len() implies #[trigger] ob[q] < TOTAL_PAGES by {
                assert(self.inodes@[inode_idx as int].inode_type->blocks@[q] < TOTAL_PAGES);
            }
        }
        proof {
            if pristine {
                assert forall|x: int| 0 <= x < readable_len(ob, size as nat) implies !((#[trigger] decode_spec(
                    file_word(a0, ob, x),
                )) is Uncorrectable) by {
                    assert(decode_spec(file_word(a0, ob, x)) is NoError);
                }
            }
        }
        let mut file_data: Vec<u8> = Vec::new();
        let mut bytes_read: usize = 0;
        let nblocks = blocks.len();
        let mut j: usize = 0;
        while j < nblocks
            invariant
                self.wf(),
                *self == *old(self),
                allocator.wf(),
                a0 == *old(allocator),
                inode_idx < self.inodes@.len(),
                self.resolve_spec(path@) == Ok::<usize, &'static str>(inode_idx),
                self.inodes@[inode_idx as int].inode_type matches InodeType::File { blocks: fb, size: fs }
                    && fs == size && fb@ == ob,
                owned == blocks_owned(a0, ob),
                decodable == file_decodable(a0, ob, size as nat),
                nblocks == ob.len(),
                blocks@.len() == nblocks,
                j <= nblocks,
                forall|q: int| 0 <= q < nblocks ==> #[trigger] blocks@[q] < TOTAL_PAGES,
                forall|q: int| j <= q < nblocks ==> #[trigger] blocks@[q] == ob[q],
                forall|q: int| 0 <= q < nblocks ==> #[trigger] ob[q] < TOTAL_PAGES,
                bytes_read == if size <= j * PAGE_SIZE { size as int } else { j * PAGE_SIZE },
                no_new_damage(a0, *allocator),
                decodable ==> blocks@ == ob,
                owned ==> file_data@ == file_bytes(a0, ob, size as nat).subrange(0, bytes_read as int),
                owned ==> rest_kept(a0, *allocator, ob, j as int),
                pristine == file_pristine(a0, ob, size as nat),
                pristine ==> decodable,
                owned ==> blocks_moved(a0, *allocator, ob, blocks@, j as int) && outside_same(
                    a0,
                    *allocator,
                    ob,
                    blocks@,
                ) && free_shrinks(a0, *allocator),
                owned ==> free_count(*allocator, TOTAL_PAGES as int) + j >= free_count(a0, TOTAL_PAGES as int),
                owned ==> contents_kept(a0, *allocator, ob, blocks@, j as int),
                owned ==> forall|q1: int, q2: int| 0 <= q1 < q2 < nblocks ==> blocks@[q1] != blocks@[q2],
                owned ==> forall|q: int|
                    0 <= q < j && damaged_block(a0, ob, size as nat, q) ==> #[trigger] blocks@[q] != ob[q],
                pristine ==> allocator.frames@ == a0.frames@ && allocator.allocation_map@ == a0.allocation_map@,
            decreases nblocks - j,
        {
            let frame = blocks[j];
            let ghost before = *allocator;
            let ghost data_before = file_data@;
            proof {
                if decodable {
                    assert forall|k: int|
                        0 <= k < (if size - bytes_read <= PAGE_SIZE { size - bytes_read } else { PAGE_SIZE as int })
                        implies !((#[trigger] decode_spec(before.frames@[frame as int].data[k])) is Uncorrectable) by {
                        let x = j * PAGE_SIZE + k;
                        lemma_block_offset(j as int, k);
                        assert(x < readable_len(ob, size as nat));
                        assert(!(decode_spec(file_word(a0, ob, x)) is Uncorrectable));
                    }
                }
            }
            proof {
                if pristine {
                    assert forall|k: int|
                        0 <= k < (if size - bytes_read <= PAGE_SIZE { size - bytes_read } else { PAGE_SIZE as int })
                        implies (#[trigger] decode_spec(before.frames@[frame as int].data[k])) is NoError by {
                        let x = j * PAGE_SIZE + k;
                        lemma_block_offset(j as int, k);
                        assert(x < readable_len(ob, size as nat));
                        assert(decode_spec(file_word(a0, ob, x)) is NoError);
                    }
                }
            }
            let ghost blocks_before = blocks@;
            let res = read_block(allocator, frame, bytes_read, size, &mut file_data);
            let (new_frame, br) = match res {
                Ok(p) => p,
                Err(e) => {
                    proof {
                        assert(!decodable);
                        if owned && free_count(a0, TOTAL_PAGES as int) >= nblocks {
                            lemma_read_ok(a0, before, ob, j as int);
                            reveal(block_moves);
                            assert(false);
                        }
                    }
                    return Err(e);
                },
            };
            proof {
                if owned {
                    lemma_read_step(a0, before, *allocator, ob, blocks_before, j as int, new_frame, br);
                    if damaged_block(a0, ob, size as nat, j as int) {
                        let k = choose|k: int|
                            0 <= k < PAGE_SIZE && j * PAGE_SIZE + k < size && (#[trigger] decode_spec(
                                a0.frames@[ob[j as int] as int].data[k],
                            )) is Uncorrectable;
                        assert(before.frames@[frame as int] == a0.frames@[ob[j as int] as int]);
                        assert(0 <= k < (if size - bytes_read <= PAGE_SIZE { size - bytes_read } else { PAGE_SIZE as int }));
                        assert(decode_spec(before.frames@[frame as int].data[k]) is Uncorrectable);
                        assert(new_frame != frame);
                    }
                }
            }
            let ghost taken = if size - bytes_read <= PAGE_SIZE { size - bytes_read } else { PAGE_SIZE as int };
            proof {
                if owned {
                    assert(before.frames@[frame as int] == a0.frames@[ob[j as int] as int]);
                    assert forall|k: int| 0 <= k < taken implies #[trigger] file_bytes(a0, ob, size as nat)[bytes_read + k]
                        == recovered_byte(a0.frames@[frame as int].data[k]) by {
                        lemma_block_offset(j as int, k);
                    }
                    assert(file_data@ =~= file_bytes(a0, ob, size as nat).subrange(0, br as int));
                    lemma_rest_untouched(a0, before, *allocator, ob, j as int, frame as int);
                    assert(rest_kept(a0, *allocator, ob, j + 1));
                }
                lemma_block_len(j as int, size as int, bytes_read as int, taken);
            }
            blocks.set(j, new_frame);
            proof {
                assert(blocks@ == blocks_before.update(j as int, new_frame));
            }
            bytes_read = br;
            j = j + 1;
        }
        proof {
            if owned {
                assert(file_bytes(a0, ob, size as nat).subrange(0, bytes_read as int) =~= file_bytes(
                    a0,
                    ob,
                    size as nat,
                ));
            }
        }
        let ghost before = self.inodes@;
        self.inodes[inode_idx].inode_type = InodeType::File { blocks, size };
        proof {
            assert forall|i: int, k: int|
                0 <= i < self.inodes@.len() && self.inodes@[i].inode_type is File && 0 <= k
                    < self.inodes@[i].inode_type->blocks@.len() implies #[trigger] self.inodes@[i].inode_type->blocks@[k]
                < TOTAL_PAGES by {
                if i != inode_idx {
                    assert(self.inodes@[i] == before[i]);
                }
            }
            assert forall|i: int, q: int|
                0 <= i < self.inodes@.len() && self.inodes@[i].inode_type is Directory && 0 <= q
                    < self.inodes@[i].inode_type->entries@.len() implies #[trigger] self.inodes@[i].inode_type->entries@[q].1
                < self.inodes@.len() by {
                assert(self.inodes@[i] == before[i]);
            }
        }
        Ok(file_data)
    }
}

/// Blocks after block `j` of an owned file stay as in `a0` when only block
/// `j`'s frame and free frames changed.
proof fn lemma_rest_untouched(
    a0: MemoryAllocator,
    before: MemoryAllocator,
    after: MemoryAllocator,
    ob: Seq<usize>,
    j: int,
    frame: int,
)
    requires
        blocks_owned(a0, ob),
        0 <= j < ob.len(),
        frame == ob[j],
        rest_kept(a0, before, ob, j),
        untouched(before, after, frame),
    ensures
        rest_kept(a0, after, ob, j + 1),
{
    assert forall|q: int| j + 1 <= q < ob.len() implies #[trigger] after.frames@[ob[q] as int]
        == a0.frames@[ob[q] as int] && after.allocation_map@[ob[q] as int]
        == a0.allocation_map@[ob[q] as int] by {
        assert(ob[q] != ob[j]);
        assert(before.frames@[ob[q] as int] == a0.frames@[ob[q] as int]);
        assert(ob[q] < TOTAL_PAGES);
        assert(!before.is_free(ob[q] as int));
        assert(after.frames@[ob[q] as int] == before.frames@[ob[q] as int]);
        assert(after.allocation_map@[ob[q] as int] == before.allocation_map@[ob[q] as int]);
    }
}

/// Blocks `j..` of the file are unchanged from `a0` in `a`.
pub open spec fn rest_kept(a0: MemoryAllocator, a: MemoryAllocator, ob: Seq<usize>, j: int) -> bool {
    forall|q: int|
        j <= q < ob.len() ==> #[trigger] a.frames@[ob[q] as int] == a0.frames@[ob[q] as int]
            && a.allocation_map@[ob[q] as int] == a0.allocation_map@[ob[q] as int]
}

/// Byte `j * PAGE_SIZE + k` lives at offset `k` of block `j`.
proof fn lemma_block_offset(j: int, k: int)
    requires
        0 <= j,
        0 <= k < PAGE_SIZE,
    ensures
        (j * PAGE_SIZE + k) / (PAGE_SIZE as int) == j,
        (j * PAGE_SIZE + k) % (PAGE_SIZE as int) == k,
{
    assert((j * 64 + k) / 64 == j && (j * 64 + k) % 64 == k) by (nonlinear_arith)
        requires
            0 <= j,
            0 <= k < 64,
    ;
}

/// The byte count after block `j` is the size capped at the next block boundary.
proof fn lemma_block_len(j: int, size: int, bytes_read: int, taken: int)
    requires
        0 <= j,
        0 <= size,
        bytes_read == if size <= j * PAGE_SIZE { size } else { j * PAGE_SIZE },
        taken == if size - bytes_read <= PAGE_SIZE { size - bytes_read } else { PAGE_SIZE as int },
    ensures
        bytes_read + taken == if size <= (j + 1) * PAGE_SIZE { size } else { (j + 1) * PAGE_SIZE },
{
    assert((j + 1) * 64 == j * 64 + 64) by (nonlinear_arith);
}

/// Splits a path into its nonempty `/`-separated components.
fn split_components(path: &str) -> (parts: Vec<String>)
    ensures
        parts.deep_view() == components(path@),
{
    let n = path.unicode_len();
    let mut parts: Vec<String> = Vec::new();
    let mut start: usize = 0;
    let mut i: usize = 0;
    while i < n
        invariant
            n == path@.len(),
            start <= i <= n,
            split_state(path@.subrange(0, i as int)) == (parts.deep_view(), path@.subrange(
                start as int,
                i as int,
            )),
        decreases n - i,
    {
        let c = path.get_char(i);
        assert(path@.subrange(0, i + 1).drop_last() =~= path@.subrange(0, i as int));
        if c == '/' {
            if start < i {
                let part = String::from_str(path.substring_char(start, i));
                let ghost before = parts.deep_view();
                parts.push(part);
                assert(parts.deep_view() =~= before.push(path@.subrange(start as int, i as int)));
            }
            start = i + 1;
            assert(path@.subrange(start as int, i + 1) =~= Seq::<char>::empty());
        } else {
            assert(path@.subrange(start as int, i + 1) =~= path@.subrange(start as int, i as int).push(c));
        }
        i = i + 1;
    }
    assert(path@.subrange(0, n as int) =~= path@);
    if start < n {
        let part = String::from_str(path.substring_char(start, n));
        let ghost before = parts.deep_view();
        parts.push(part);
        assert(parts.deep_view() =~= before.push(path@.subrange(start as int, n as int)));
    }
    parts
}

} // verus!
