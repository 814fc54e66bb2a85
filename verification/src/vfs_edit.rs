//! Changing the shape of the file system: removing, renaming and copying
//! nodes.
use vstd::prelude::*;
use vstd::string::*;
use crate::inode::{Inode, InodeType};
use crate::allocator::{MemoryAllocator, TOTAL_PAGES};
use crate::vfs::{VirtualFileSystem, entry_named, has_entry};
use crate::paths::{split_path, split_path_spec};

verus! {

pub const ERR_REMOVE_ROOT: &'static str = "Cannot remove the root directory node.";
pub const ERR_NOT_EMPTY: &'static str = "Directory is not empty. Use 'rm -rf' to remove recursively.";
pub const ERR_RENAME_ROOT: &'static str = "Cannot rename the root directory.";
pub const ERR_DEST_NOT_DIR: &'static str = "Destination parent is not a directory.";
pub const ERR_DEST_TAKEN: &'static str = "A file or directory with that name already exists.";

/// The entries of a directory with their names as text.
pub open spec fn entries_view(e: Seq<(String, usize)>) -> Seq<(Seq<char>, usize)> {
    e.map_values(|x: (String, usize)| (x.0@, x.1))
}

/// The entries without the first one called `name` (all of them when none is).
pub open spec fn without_entry(e: Seq<(String, usize)>, name: Seq<char>) -> Seq<(Seq<char>, usize)> {
    if exists|j: int| entry_named(e, name, j) {
        entries_view(e).remove(choose|j: int| entry_named(e, name, j))
    } else {
        entries_view(e)
    }
}

/// Only one entry is the first called `name`.
pub proof fn lemma_entry_named_unique(e: Seq<(String, usize)>, name: Seq<char>, j1: int, j2: int)
    requires
        entry_named(e, name, j1),
        entry_named(e, name, j2),
    ensures
        j1 == j2,
{
    if j1 < j2 {
        assert(e[j1].0@ != name);
    } else if j2 < j1 {
        assert(e[j2].0@ != name);
    }
}

/// Dropping an entry keeps every remaining inode index below `bound`.
pub proof fn lemma_without_entry_bound(e: Seq<(String, usize)>, name: Seq<char>, bound: int)
    requires
        forall|p: int| 0 <= p < e.len() ==> #[trigger] e[p].1 < bound,
    ensures
        forall|q: int|
            0 <= q < without_entry(e, name).len() ==> #[trigger] without_entry(e, name)[q].1 < bound,
{
    let w = without_entry(e, name);
    assert forall|q: int| 0 <= q < w.len() implies #[trigger] w[q].1 < bound by {
        if exists|j: int| entry_named(e, name, j) {
            let j = choose|j: int| entry_named(e, name, j);
            if q < j {
                assert(w[q] == entries_view(e)[q]);
                assert(e[q].1 < bound);
            } else {
                assert(w[q] == entries_view(e)[q + 1]);
                assert(e[q + 1].1 < bound);
            }
        } else {
            assert(e[q].1 < bound);
        }
    }
}

/// Removes the first entry called `name`, if there is one.
fn remove_entry(entries: &mut Vec<(String, usize)>, name: &String)
    ensures
        entries_view(final(entries)@) == without_entry(old(entries)@, name@),
{
    match VirtualFileSystem::find_entry(entries, name) {
        Some(j) => {
            let ghost e0 = entries@;
            entries.remove(j);
            proof {
                lemma_entry_named_unique(e0, name@, j as int, choose|i: int| entry_named(e0, name@, i));
                assert(entries_view(entries@) =~= entries_view(e0).remove(j as int));
            }
        },
        None => {
            proof {
                if exists|i: int| entry_named(entries@, name@, i) {
                    let i = choose|i: int| entry_named(entries@, name@, i);
                    assert(entries@[i].0@ == name@);
                }
            }
        },
    }
}

/// `after` is `before` with the first entry called `name` removed from
/// directory `p` (nothing changes when `p` is a file).
pub open spec fn entry_removed(before: Seq<Inode>, after: Seq<Inode>, p: int, name: Seq<char>) -> bool {
    &&& after.len() == before.len()
    &&& forall|k: int| 0 <= k < before.len() && k != p ==> #[trigger] after[k] == before[k]
    &&& after[p].index == before[p].index
    &&& after[p].name == before[p].name
    &&& match before[p].inode_type {
        InodeType::File { .. } => after[p].inode_type == before[p].inode_type,
        InodeType::Directory { entries } => after[p].inode_type matches InodeType::Directory {
            entries: e2,
        } && entries_view(e2@) == without_entry(entries@, name),
    }
}

/// `after` is `before` once node `src` has been renamed `dn`, its entry
/// called `sn` dropped from directory `sp` and an entry `(dn, src)`
/// appended to directory `dp`.
pub open spec fn node_moved(
    before: Seq<Inode>,
    after: Seq<Inode>,
    src: int,
    sp: int,
    sn: Seq<char>,
    dp: int,
    dn: Seq<char>,
) -> bool {
    &&& after.len() == before.len()
    &&& forall|k: int|
        #![trigger after[k]]
        0 <= k < before.len() ==> {
            &&& after[k].index == before[k].index
            &&& after[k].name@ == if k == src {
                dn
            } else {
                before[k].name@
            }
            &&& match before[k].inode_type {
                InodeType::File { .. } => after[k].inode_type == before[k].inode_type,
                InodeType::Directory { entries } => {
                    let e1 = if k == sp {
                        without_entry(entries@, sn)
                    } else {
                        entries_view(entries@)
                    };
                    let e2 = if k == dp {
                        e1.push((dn, src as usize))
                    } else {
                        e1
                    };
                    after[k].inode_type matches InodeType::Directory { entries: ae }
                        && entries_view(ae@) == e2
                },
            }
        }
}

/// A path that is exactly `/`.
fn is_root_path(path: &str) -> (b: bool)
    ensures
        b == (path@ == seq!['/']),
{
    let b = path.unicode_len() == 1 && path.get_char(0) == '/';
    proof {
        if b {
            assert(path@ =~= seq!['/']);
        }
    }
    b
}

impl VirtualFileSystem {
    /// Frame `f` is a block of a file reached from inode `i` by following
    /// at most `d` levels of directory entries.
    pub open spec fn frees(&self, i: usize, d: nat, f: int) -> bool
        decreases d,
    {
        match self.inodes@[i as int].inode_type {
            InodeType::File { blocks, .. } => exists|k: int| 0 <= k < blocks@.len() && blocks@[k] == f,
            InodeType::Directory { entries } => d > 0 && exists|q: int|
                0 <= q < entries@.len() && self.frees(entries@[q].1, (d - 1) as nat, f),
        }
    }

    /// Some entry among the first `n` of `entries` leads to frame `f`.
    pub open spec fn frees_any(&self, entries: Seq<(String, usize)>, n: int, d: nat, f: int) -> bool {
        exists|q: int| 0 <= q < n && #[trigger] self.frees(entries[q].1, d, f)
    }

    /// Releases every frame of every file under inode `inode_idx`, going at
    /// most `depth` levels down.
    fn deallocate_inode_recursive(&self, inode_idx: usize, depth: usize, allocator: &mut MemoryAllocator)
        requires
            self.wf(),
            inode_idx < self.inodes@.len(),
            old(allocator).wf(),
        ensures
            final(allocator).wf(),
            final(allocator).frames@ == old(allocator).frames@,
            forall|f: int|
                0 <= f < TOTAL_PAGES ==> #[trigger] final(allocator).allocation_map@[f] == if self.frees(
                    inode_idx,
                    depth as nat,
                    f,
                ) {
                    None
                } else {
                    old(allocator).allocation_map@[f]
                },
        decreases depth,
    {
        let ghost a0 = *allocator;
        match &self.inodes[inode_idx].inode_type {
            InodeType::File { blocks, .. } => {
                let mut k: usize = 0;
                while k < blocks.len()
                    invariant
                        allocator.wf(),
                        allocator.frames@ == a0.frames@,
                        k <= blocks@.len(),
                        forall|f: int|
                            0 <= f < TOTAL_PAGES ==> #[trigger] allocator.allocation_map@[f] == if exists|k2: int|
                                0 <= k2 < k && blocks@[k2] == f {
                                None
                            } else {
                                a0.allocation_map@[f]
                            },
                    decreases blocks@.len() - k,
                {
                    let ghost before = *allocator;
                    let _ = allocator.deallocate_page(blocks[k]);
                    proof {
                        assert forall|f: int| 0 <= f < TOTAL_PAGES implies #[trigger] allocator.allocation_map@[f]
                            == if exists|k2: int| 0 <= k2 < k + 1 && blocks@[k2] == f {
                            None
                        } else {
                            a0.allocation_map@[f]
                        } by {
                            if f == blocks@[k as int] {
                                assert(0 <= k < k + 1 && blocks@[k as int] == f);
                            } else {
                                assert(allocator.allocation_map@[f] == before.allocation_map@[f]);
                                if exists|k2: int| 0 <= k2 < k + 1 && blocks@[k2] == f {
                                    let k2 = choose|k2: int| 0 <= k2 < k + 1 && blocks@[k2] == f;
                                    assert(k2 < k);
                                }
                            }
                        }
                    }
                    k = k + 1;
                }
            },
            InodeType::Directory { entries } => {
                if depth > 0 {
                    let mut q: usize = 0;
                    while q < entries.len()
                        invariant
                            self.wf(),
                            inode_idx < self.inodes@.len(),
                            self.inodes@[inode_idx as int].inode_type matches InodeType::Directory {
                                entries: e,
                            } && e@ == entries@,
                            allocator.wf(),
                            allocator.frames@ == a0.frames@,
                            q <= entries@.len(),
                            depth > 0,
                            forall|f: int|
                                0 <= f < TOTAL_PAGES ==> #[trigger] allocator.allocation_map@[f] == if self.frees_any(
                                    entries@,
                                    q as int,
                                    (depth - 1) as nat,
                                    f,
                                ) {
                                    None
                                } else {
                                    a0.allocation_map@[f]
                                },
                        decreases entries@.len() - q,
                    {
                        let ghost before = *allocator;
                        let child = entries[q].1;
                        proof {
                            assert(self.inodes@[inode_idx as int].inode_type->entries@[q as int].1
                                < self.inodes@.len());
                        }
                        self.deallocate_inode_recursive(child, depth - 1, allocator);
                        proof {
                            assert forall|f: int| 0 <= f < TOTAL_PAGES implies #[trigger] allocator.allocation_map@[f]
                                == if self.frees_any(entries@, q + 1, (depth - 1) as nat, f) {
                                None
                            } else {
                                a0.allocation_map@[f]
                            } by {
                                if self.frees(child, (depth - 1) as nat, f) {
                                    assert(self.frees(entries@[q as int].1, (depth - 1) as nat, f));
                                } else {
                                    if self.frees_any(entries@, q + 1, (depth - 1) as nat, f) {
                                        let q2 = choose|q2: int|
                                            0 <= q2 < q + 1 && #[trigger] self.frees(
                                                entries@[q2].1,
                                                (depth - 1) as nat,
                                                f,
                                            );
                                        assert(q2 < q);
                                    }
                                }
                            }
                        }
                        q = q + 1;
                    }
                    proof {
                        assert forall|f: int| 0 <= f < TOTAL_PAGES implies self.frees(
                            inode_idx,
                            depth as nat,
                            f,
                        ) == self.frees_any(entries@, entries@.len() as int, (depth - 1) as nat, f) by {
                            if self.frees(inode_idx, depth as nat, f) {
                                let q2 = choose|q2: int|
                                    0 <= q2 < entries@.len() && self.frees(
                                        entries@[q2].1,
                                        (depth - 1) as nat,
                                        f,
                                    );
                                assert(self.frees(entries@[q2].1, (depth - 1) as nat, f));
                            }
                            if self.frees_any(entries@, entries@.len() as int, (depth - 1) as nat, f) {
                                let q2 = choose|q2: int|
                                    0 <= q2 < entries@.len() && #[trigger] self.frees(
                                        entries@[q2].1,
                                        (depth - 1) as nat,
                                        f,
                                    );
                                assert(0 <= q2 < entries@.len() && self.frees(
                                    entries@[q2].1,
                                    (depth - 1) as nat,
                                    f,
                                ));
                            }
                        }
                    }
                }
            },
        }
    }
}

impl VirtualFileSystem {
    /// What removing the node at `path` does: the root and non-empty
    /// directories (unless `recursive`) are refused; otherwise the frames of
    /// every file under the node are released and its entry is dropped from
    /// the directory named by the path's parent.
    pub open spec fn remove_outcome(
        &self,
        after: Self,
        a0: MemoryAllocator,
        a1: MemoryAllocator,
        path: Seq<char>,
        recursive: bool,
        r: Result<(), &'static str>,
    ) -> bool {
        if path == seq!['/'] {
            r == Err::<(), &'static str>(ERR_REMOVE_ROOT) && after == *self && a1 == a0
        } else {
            match self.resolve_spec(path) {
                Err(e) => r == Err::<(), &'static str>(e) && after == *self && a1 == a0,
                Ok(c) => if !recursive && (self.inodes@[c as int].inode_type matches InodeType::Directory {
                    entries,
                } && entries@.len() > 0) {
                    r == Err::<(), &'static str>(ERR_NOT_EMPTY) && after == *self && a1 == a0
                } else {
                    &&& a1.frames@ == a0.frames@
                    &&& forall|f: int|
                        0 <= f < TOTAL_PAGES ==> #[trigger] a1.allocation_map@[f] == if self.frees(
                            c,
                            self.inodes@.len() as nat,
                            f,
                        ) {
                            None
                        } else {
                            a0.allocation_map@[f]
                        }
                    &&& match self.resolve_spec(split_path_spec(path).0) {
                        Err(e) => r == Err::<(), &'static str>(e) && after == *self,
                        Ok(p) => r == Ok::<(), &'static str>(()) && entry_removed(
                            self.inodes@,
                            after.inodes@,
                            p as int,
                            split_path_spec(path).1,
                        ),
                    }
                },
            }
        }
    }

    /// Removes the node at `path`, releasing the frames of the files under
    /// it; a non-empty directory needs `recursive`.
    pub fn remove_node(&mut self, path: &str, recursive: bool, allocator: &mut MemoryAllocator) -> (r:
        Result<(), &'static str>)
        requires
            old(self).wf(),
            old(allocator).wf(),
        ensures
            final(self).wf(),
            final(allocator).wf(),
            old(self).remove_outcome(*final(self), *old(allocator), *final(allocator), path@, recursive, r),
    {
        if is_root_path(path) {
            return Err(ERR_REMOVE_ROOT);
        }
        let child_idx = self.resolve_path(path)?;
        if let InodeType::Directory { entries } = &self.inodes[child_idx].inode_type {
            if entries.len() > 0 && !recursive {
                return Err(ERR_NOT_EMPTY);
            }
        }
        let depth = self.inodes.len();
        self.deallocate_inode_recursive(child_idx, depth, allocator);
        let (parent_path, name) = split_path(path);
        let parent_idx = self.resolve_path(parent_path.as_str())?;
        let ghost before = self.inodes@;
        match &mut self.inodes[parent_idx].inode_type {
            InodeType::Directory { entries } => {
                remove_entry(entries, &name);
            },
            InodeType::File { .. } => {},
        }
        proof {
            assert(entry_removed(before, self.inodes@, parent_idx as int, name@));
            self.lemma_entry_removed_wf(*old(self), parent_idx as int, name@);
        }
        Ok(())
    }

    /// Dropping a directory entry keeps the table well formed.
    proof fn lemma_entry_removed_wf(&self, old: Self, p: int, name: Seq<char>)
        requires
            old.wf(),
            0 <= p < old.inodes@.len(),
            entry_removed(old.inodes@, self.inodes@, p, name),
        ensures
            self.wf(),
    {
        if let InodeType::Directory { entries } = old.inodes@[p].inode_type {
            assert forall|q: int| 0 <= q < entries@.len() implies #[trigger] entries@[q].1 < old.inodes@.len() by {
                assert(old.inodes@[p].inode_type->entries@[q].1 < old.inodes@.len());
            }
            lemma_without_entry_bound(entries@, name, old.inodes@.len() as int);
        }
        assert forall|i: int, j: int|
            0 <= i < self.inodes@.len() && self.inodes@[i].inode_type is Directory && 0 <= j
                < self.inodes@[i].inode_type->entries@.len() implies #[trigger] self.inodes@[i].inode_type->entries@[j].1
            < self.inodes@.len() by {
            if i != p {
                assert(self.inodes@[i] == old.inodes@[i]);
            } else {
                let e2 = self.inodes@[i].inode_type->entries@;
                assert(entries_view(e2)[j].1 == e2[j].1);
            }
        }
        assert forall|i: int, k: int|
            0 <= i < self.inodes@.len() && self.inodes@[i].inode_type is File && 0 <= k
                < self.inodes@[i].inode_type->blocks@.len() implies #[trigger] self.inodes@[i].inode_type->blocks@[k]
            < TOTAL_PAGES by {
            assert(old.inodes@[i].inode_type is File);
        }
    }
}

impl VirtualFileSystem {
    /// What moving the node at `src` into the directory `dp` under the name
    /// `dn` does: the root cannot move, both paths must resolve, `dp` must be
    /// a directory without an entry `dn` and the parent of `src` must
    /// resolve; then the node is renamed, its old entry dropped and the new
    /// one appended. No data moves.
    pub open spec fn rename_outcome(
        &self,
        after: Self,
        src: Seq<char>,
        dp: Seq<char>,
        dn: Seq<char>,
        r: Result<(), &'static str>,
    ) -> bool {
        if src == seq!['/'] {
            r == Err::<(), &'static str>(ERR_RENAME_ROOT) && after == *self
        } else {
            match self.resolve_spec(src) {
                Err(e) => r == Err::<(), &'static str>(e) && after == *self,
                Ok(s) => match self.resolve_spec(dp) {
                    Err(e) => r == Err::<(), &'static str>(e) && after == *self,
                    Ok(d) => match self.inodes@[d as int].inode_type {
                        InodeType::File { .. } => r == Err::<(), &'static str>(ERR_DEST_NOT_DIR) && after
                            == *self,
                        InodeType::Directory { entries } => if has_entry(entries@, dn) {
                            r == Err::<(), &'static str>(ERR_DEST_TAKEN) && after == *self
                        } else {
                            match self.resolve_spec(split_path_spec(src).0) {
                                Err(e) => r == Err::<(), &'static str>(e) && after == *self,
                                Ok(sp) => r == Ok::<(), &'static str>(()) && node_moved(
                                    self.inodes@,
                                    after.inodes@,
                                    s as int,
                                    sp as int,
                                    split_path_spec(src).1,
                                    d as int,
                                    dn,
                                ),
                            }
                        },
                    },
                },
            }
        }
    }

    /// Moves the node at `src_path` into the directory at `dst_parent_path`
    /// under the name `dst_name`.
    pub fn rename_node(&mut self, src_path: &str, dst_parent_path: &str, dst_name: &str) -> (r: Result<
        (),
        &'static str,
    >)
        requires
            old(self).wf(),
        ensures
            final(self).wf(),
            old(self).rename_outcome(*final(self), src_path@, dst_parent_path@, dst_name@, r),
    {
        if is_root_path(src_path) {
            return Err(ERR_RENAME_ROOT);
        }
        let src_idx = self.resolve_path(src_path)?;
        let dst_parent_idx = self.resolve_path(dst_parent_path)?;
        if !self.inodes[dst_parent_idx].is_directory() {
            return Err(ERR_DEST_NOT_DIR);
        }
        let new_name = String::from_str(dst_name);
        if let InodeType::Directory { entries } = &self.inodes[dst_parent_idx].inode_type {
            if Self::find_entry(entries, &new_name).is_some() {
                return Err(ERR_DEST_TAKEN);
            }
        }
        let (src_parent, src_name) = split_path(src_path);
        let src_parent_idx = self.resolve_path(src_parent.as_str())?;
        let ghost s0 = self.inodes@;
        match &mut self.inodes[src_parent_idx].inode_type {
            InodeType::Directory { entries } => {
                remove_entry(entries, &src_name);
            },
            InodeType::File { .. } => {},
        }
        let ghost s1 = self.inodes@;
        assert(entry_removed(s0, s1, src_parent_idx as int, src_name@));
        self.inodes[src_idx].name = String::from_str(dst_name);
        let ghost s2 = self.inodes@;
        match &mut self.inodes[dst_parent_idx].inode_type {
            InodeType::Directory { entries } => {
                entries.push((new_name, src_idx));
            },
            InodeType::File { .. } => {},
        }
        proof {
            let sp = src_parent_idx as int;
            let dp = dst_parent_idx as int;
            let s3 = self.inodes@;
            assert(s3.len() == s0.len());
            assert forall|k: int| #![trigger s3[k]] 0 <= k < s0.len() implies {
                &&& s3[k].index == s0[k].index
                &&& s3[k].name@ == if k == src_idx {
                    dst_name@
                } else {
                    s0[k].name@
                }
                &&& match s0[k].inode_type {
                    InodeType::File { .. } => s3[k].inode_type == s0[k].inode_type,
                    InodeType::Directory { entries } => {
                        let e1 = if k == sp {
                            without_entry(entries@, src_name@)
                        } else {
                            entries_view(entries@)
                        };
                        let e2 = if k == dp {
                            e1.push((dst_name@, src_idx))
                        } else {
                            e1
                        };
                        s3[k].inode_type matches InodeType::Directory { entries: ae } && entries_view(
                            ae@,
                        ) == e2
                    },
                }
            } by {
                if k != sp {
                    assert(s1[k] == s0[k]);
                }
                if k != src_idx {
                    assert(s2[k] == s1[k]);
                }
                if k != dp {
                    assert(s3[k] == s2[k]);
                } else {
                    let e2 = s2[k].inode_type->entries@;
                    let e3 = s3[k].inode_type->entries@;
                    assert(entries_view(e3) =~= entries_view(e2).push((dst_name@, src_idx)));
                }
            }
            assert(node_moved(s0, s3, src_idx as int, sp, src_name@, dp, dst_name@));
            self.lemma_node_moved_wf(*old(self), src_idx as int, sp, src_name@, dp, dst_name@);
        }
        Ok(())
    }

    /// Moving a node keeps the table well formed.
    proof fn lemma_node_moved_wf(&self, old: Self, src: int, sp: int, sn: Seq<char>, dp: int, dn: Seq<char>)
        requires
            old.wf(),
            0 <= src < old.inodes@.len(),
            node_moved(old.inodes@, self.inodes@, src, sp, sn, dp, dn),
        ensures
            self.wf(),
    {
        assert(self.inodes@[0].index == old.inodes@[0].index);
        assert forall|i: int, j: int|
            0 <= i < self.inodes@.len() && self.inodes@[i].inode_type is Directory && 0 <= j
                < self.inodes@[i].inode_type->entries@.len() implies #[trigger] self.inodes@[i].inode_type->entries@[j].1
            < self.inodes@.len() by {
            assert(self.inodes@[i].index == old.inodes@[i].index);
            if let InodeType::Directory { entries } = old.inodes@[i].inode_type {
                assert forall|q: int| 0 <= q < entries@.len() implies #[trigger] entries@[q].1
                    < old.inodes@.len() by {
                    assert(old.inodes@[i].inode_type->entries@[q].1 < old.inodes@.len());
                }
                lemma_without_entry_bound(entries@, sn, old.inodes@.len() as int);
                let e1 = if i == sp {
                    without_entry(entries@, sn)
                } else {
                    entries_view(entries@)
                };
                assert forall|q: int| 0 <= q < e1.len() implies #[trigger] e1[q].1 < old.inodes@.len() by {
                    if i != sp {
                        assert(entries_view(entries@)[q].1 == entries@[q].1);
                    }
                }
                let e2 = self.inodes@[i].inode_type->entries@;
                let ex = if i == dp {
                    e1.push((dn, src as usize))
                } else {
                    e1
                };
                assert(entries_view(e2) == ex);
                assert(entries_view(e2)[j].1 == e2[j].1);
                if i == dp && j == e1.len() {
                } else {
                    assert(ex[j] == e1[j]);
                }
            }
        }
        assert forall|i: int, k: int|
            0 <= i < self.inodes@.len() && self.inodes@[i].inode_type is File && 0 <= k
                < self.inodes@[i].inode_type->blocks@.len() implies #[trigger] self.inodes@[i].inode_type->blocks@[k]
            < TOTAL_PAGES by {
            assert(self.inodes@[i].index == old.inodes@[i].index);
            assert(old.inodes@[i].inode_type is File);
        }
    }
}

/// The path of `name` inside the directory `parent`.
pub open spec fn join_path(parent: Seq<char>, name: Seq<char>) -> Seq<char> {
    if parent == seq!['/'] {
        seq!['/'] + name
    } else {
        parent + seq!['/'] + name
    }
}

/// The path of `name` inside the directory `parent`.
pub(crate) fn join_path_text(parent: &str, name: &str) -> (p: String)
    ensures
        p@ == join_path(parent@, name@),
{
    let mut p = String::from_str(parent);
    if !is_root_path(parent) {
        proof {
            reveal_strlit("/");
        }
        p.append("/");
    }
    p.append(name);
    assert(p@ =~= join_path(parent@, name@));
    p
}

impl VirtualFileSystem {
    /// The stages of a copy with their outcomes: reading the source gives
    /// `rr` and leaves `s1`, `m1`; creating the destination file gives `cr`
    /// and leaves `s2`; the bytes read are then written to the new file.
    /// The first stage that fails ends the copy with its error.
    pub open spec fn copy_stages(
        &self,
        s1: Self,
        m1: MemoryAllocator,
        rr: Result<Vec<u8>, &'static str>,
        s2: Self,
        cr: Result<usize, &'static str>,
        after: Self,
        a0: MemoryAllocator,
        a1: MemoryAllocator,
        src: Seq<char>,
        dp: Seq<char>,
        dn: Seq<char>,
        pid: u32,
        r: Result<(), &'static str>,
    ) -> bool {
        &&& self.read_outcome(s1, a0, m1, src, rr)
        &&& s1.wf()
        &&& m1.wf()
        &&& match rr {
            Err(e) => r == Err::<(), &'static str>(e) && after == s1 && a1 == m1,
            Ok(data) => {
                &&& s1.create_outcome(s2, dp, dn, false, cr)
                &&& s2.wf()
                &&& match cr {
                    Err(e) => r == Err::<(), &'static str>(e) && after == s2 && a1 == m1,
                    Ok(_) => s2.write_outcome(after, m1, a1, join_path(dp, dn), data@, pid, r),
                }
            },
        }
    }

    /// What copying does: the stages of a copy, for some intermediate states.
    pub open spec fn copy_outcome(
        &self,
        after: Self,
        a0: MemoryAllocator,
        a1: MemoryAllocator,
        src: Seq<char>,
        dp: Seq<char>,
        dn: Seq<char>,
        pid: u32,
        r: Result<(), &'static str>,
    ) -> bool {
        exists|
            s1: Self,
            m1: MemoryAllocator,
            rr: Result<Vec<u8>, &'static str>,
            s2: Self,
            cr: Result<usize, &'static str>,
        |
            #[trigger] self.copy_stages(s1, m1, rr, s2, cr, after, a0, a1, src, dp, dn, pid, r)
    }

    /// Copies the file at `src_path` to a new file `dst_name` in the
    /// directory at `dst_parent_path`, the new frames owned by `pid`.
    pub fn copy_file(
        &mut self,
        src_path: &str,
        dst_parent_path: &str,
        dst_name: &str,
        allocator: &mut MemoryAllocator,
        pid: u32,
    ) -> (r: Result<(), &'static str>)
        requires
            old(self).wf(),
            old(allocator).wf(),
        ensures
            final(self).wf(),
            final(allocator).wf(),
            old(self).copy_outcome(
                *final(self),
                *old(allocator),
                *final(allocator),
                src_path@,
                dst_parent_path@,
                dst_name@,
                pid,
                r,
            ),
    {
        let ghost f0 = *self;
        let ghost a0 = *allocator;
        let rr = self.read_file(src_path, allocator);
        let ghost s1 = *self;
        let ghost m1 = *allocator;
        let ghost rrg = rr;
        let data = match rr {
            Ok(d) => d,
            Err(e) => {
                proof {
                    let cr = Err::<usize, &'static str>(e);
                    assert(f0.copy_stages(s1, m1, rrg, s1, cr, *self, a0, *allocator, src_path@, dst_parent_path@, dst_name@, pid, Err(e)));
                }
                return Err(e);
            },
        };
        let cr = self.create_file(dst_parent_path, dst_name);
        let ghost s2 = *self;
        let ghost crg = cr;
        if let Err(e) = cr {
            proof {
                assert(f0.copy_stages(s1, m1, rrg, s2, crg, *self, a0, *allocator, src_path@, dst_parent_path@, dst_name@, pid, Err(e)));
            }
            return Err(e);
        }
        let dst_path = join_path_text(dst_parent_path, dst_name);
        let r = self.write_file(dst_path.as_str(), data.as_slice(), allocator, pid);
        proof {
            assert(f0.copy_stages(s1, m1, rrg, s2, crg, *self, a0, *allocator, src_path@, dst_parent_path@, dst_name@, pid, r));
        }
        r
    }
}

} // verus!
