//! What the file system promises across operations.
use vstd::prelude::*;
use crate::inode::InodeType;
use crate::allocator::{MemoryAllocator, PAGE_SIZE, TOTAL_PAGES, free_count, count_true, lemma_count_same};
use crate::ecc::{DecodeResult, decode_spec, lemma_decode_encode};
use crate::vfs::{
    VirtualFileSystem, holds_data, blocks_owned, file_decodable, file_bytes, file_word, readable_len,
    block_count, padded_byte, file_pristine, lookup, entry_named, has_entry, lemma_lookup_at,
    plain_name, components, lemma_components_child, free_after_release, contents_kept, in_blocks,
};

use crate::vfs_edit::join_path;

verus! {

/// Frames that hold `data` as codewords give `data` back when salvaged,
/// with no uncorrectable word among them.
pub proof fn lemma_holds_data_readable(a: MemoryAllocator, blocks: Seq<usize>, data: Seq<u8>, pid: u32)
    requires
        holds_data(a, blocks, data, pid),
    ensures
        blocks_owned(a, blocks),
        file_decodable(a, blocks, data.len()),
        file_pristine(a, blocks, data.len()),
        file_bytes(a, blocks, data.len()) == data,
{
    let len = data.len();
    assert(blocks.len() * PAGE_SIZE >= len) by (nonlinear_arith)
        requires
            blocks.len() == block_count(len),
    ;
    assert(readable_len(blocks, len) == len);
    assert forall|x: int| 0 <= x < len implies decode_spec(file_word(a, blocks, x)) == DecodeResult::NoError(
        data[x],
    ) by {
        let j = x / (PAGE_SIZE as int);
        let k = x % (PAGE_SIZE as int);
        assert(j * PAGE_SIZE + k == x && 0 <= k < PAGE_SIZE && 0 <= j) by (nonlinear_arith)
            requires
                j == x / 64,
                k == x % 64,
                0 <= x,
        ;
        assert(j < blocks.len()) by (nonlinear_arith)
            requires
                j * 64 + k == x,
                0 <= k,
                x < len,
                blocks.len() * 64 >= len,
        ;
        assert(a.frames@[blocks[j] as int].data[k] == crate::ecc::encode_spec(padded_byte(data, j * PAGE_SIZE + k)));
        lemma_decode_encode(data[x]);
    }
    assert(file_bytes(a, blocks, len) =~= data);
}

impl VirtualFileSystem {
    /// Walks agree in two tables that differ only at a node that is a file
    /// in both.
    pub proof fn lemma_walk_same(&self, other: Self, i: int, comps: Seq<Seq<char>>)
        requires
            self.wf(),
            other.inodes@.len() == self.inodes@.len(),
            forall|k: int| 0 <= k < self.inodes@.len() && k != i ==> #[trigger] other.inodes@[k] == self.inodes@[k],
            self.inodes@[i].inode_type is File,
            other.inodes@[i].inode_type is File,
        ensures
            other.walk(comps) == self.walk(comps),
        decreases comps.len(),
    {
        if comps.len() > 0 {
            self.lemma_walk_same(other, i, comps.drop_last());
            self.lemma_walk_in_range(comps.drop_last());
            if let Ok(cur) = self.walk(comps.drop_last()) {
                if cur != i {
                    assert(other.inodes@[cur as int] == self.inodes@[cur as int]);
                }
            }
        }
    }
}

/// Reading a file right after `data` was written to it gives back `data`,
/// and leaves the memory and the file's blocks as the write left them.
pub proof fn law_read_after_write(
    fs0: VirtualFileSystem,
    fs1: VirtualFileSystem,
    fs2: VirtualFileSystem,
    a0: MemoryAllocator,
    a1: MemoryAllocator,
    a2: MemoryAllocator,
    path: Seq<char>,
    data: Seq<u8>,
    pid: u32,
    read: Result<Vec<u8>, &'static str>,
)
    requires
        fs0.wf(),
        fs0.write_outcome(fs1, a0, a1, path, data, pid, Ok(())),
        fs1.read_outcome(fs2, a1, a2, path, read),
    ensures
        read matches Ok(v) && v@ == data,
        a2.frames@ == a1.frames@,
        a2.allocation_map@ == a1.allocation_map@,
        fs2.inodes@.len() == fs1.inodes@.len(),
        forall|k: int| 0 <= k < fs1.inodes@.len() ==> (#[trigger] fs2.inodes@[k]).index == fs1.inodes@[k].index
            && fs2.inodes@[k].name == fs1.inodes@[k].name,
{
    let i = fs0.resolve_spec(path)->Ok_0;
    fs0.lemma_walk_in_range(crate::vfs::components(path));
    fs0.lemma_walk_same(fs1, i as int, crate::vfs::components(path));
    assert(fs1.resolve_spec(path) == fs0.resolve_spec(path));
    if let InodeType::File { blocks, size } = fs1.inodes@[i as int].inode_type {
        lemma_holds_data_readable(a1, blocks@, data, pid);
    }
}


/// Reading the file that a successful copy created gives the bytes the
/// source held (as salvaged) when the copy began.
pub proof fn law_read_after_copy(
    fs0: VirtualFileSystem,
    fs1: VirtualFileSystem,
    fs2: VirtualFileSystem,
    a0: MemoryAllocator,
    a1: MemoryAllocator,
    a2: MemoryAllocator,
    src: Seq<char>,
    dp: Seq<char>,
    dn: Seq<char>,
    pid: u32,
    i: usize,
    read: Result<Vec<u8>, &'static str>,
)
    requires
        fs0.wf(),
        fs0.copy_outcome(fs1, a0, a1, src, dp, dn, pid, Ok(())),
        fs0.resolve_spec(src) == Ok::<usize, &'static str>(i),
        fs0.inodes@[i as int].inode_type is File,
        blocks_owned(a0, fs0.inodes@[i as int].inode_type->blocks@),
        fs1.read_outcome(fs2, a1, a2, join_path(dp, dn), read),
    ensures
        read matches Ok(v) && v@ == file_bytes(
            a0,
            fs0.inodes@[i as int].inode_type->blocks@,
            fs0.inodes@[i as int].inode_type->size as nat,
        ),
{
    let (s1, m1, rr, s2, cr) = choose|
        s1: VirtualFileSystem,
        m1: MemoryAllocator,
        rr: Result<Vec<u8>, &'static str>,
        s2: VirtualFileSystem,
        cr: Result<usize, &'static str>,
    |
        #[trigger] fs0.copy_stages(s1, m1, rr, s2, cr, fs1, a0, a1, src, dp, dn, pid, Ok(()));
    let data = rr->Ok_0;
    law_read_after_write(s2, fs1, fs2, m1, a1, a2, join_path(dp, dn), data@, pid, read);
}


/// Appending an entry with a new name to directory `pi` (and a node to the
/// table) leaves every walk that succeeded before where it was.
proof fn lemma_walk_after_create(
    s1: VirtualFileSystem,
    s2: VirtualFileSystem,
    pi: usize,
    dn: Seq<char>,
    comps: Seq<Seq<char>>,
)
    requires
        s1.wf(),
        pi < s1.inodes@.len(),
        s2.inodes@.len() == s1.inodes@.len() + 1,
        forall|k: int| 0 <= k < s1.inodes@.len() && k != pi ==> #[trigger] s2.inodes@[k] == s1.inodes@[k],
        s1.inodes@[pi as int].inode_type is Directory,
        s2.inodes@[pi as int].inode_type is Directory,
        s2.inodes@[pi as int].inode_type->entries@ == s1.inodes@[pi as int].inode_type->entries@.push(
            s2.inodes@[pi as int].inode_type->entries@.last(),
        ),
        s2.inodes@[pi as int].inode_type->entries@.last().0@ == dn,
        !has_entry(s1.inodes@[pi as int].inode_type->entries@, dn),
        s1.walk(comps) is Ok,
    ensures
        s2.walk(comps) == s1.walk(comps),
    decreases comps.len(),
{
    if comps.len() > 0 {
        let pre = comps.drop_last();
        if s1.walk(pre) is Err {
            assert(comps.subrange(0, pre.len() as int) =~= pre);
            s1.lemma_walk_err_prefix(pre, comps);
        }
        lemma_walk_after_create(s1, s2, pi, dn, pre);
        s1.lemma_walk_in_range(pre);
        let cur = s1.walk(pre)->Ok_0;
        if cur != pi {
            assert(s2.inodes@[cur as int] == s1.inodes@[cur as int]);
        } else {
            let e1 = s1.inodes@[pi as int].inode_type->entries@;
            let e2 = s2.inodes@[pi as int].inode_type->entries@;
            let name = comps.last();
            assert(lookup(e1, name) is Some);
            let j = choose|j: int| entry_named(e1, name, j);
            assert(entry_named(e2, name, j));
            lemma_lookup_at(e1, name, j);
            lemma_lookup_at(e2, name, j);
        }
    }
}

/// After creating `dn` (a name without `/`) in the directory at the
/// absolute path `dp`, the path `dp/dn` leads to the new node.
proof fn lemma_new_file_resolves(s1: VirtualFileSystem, s2: VirtualFileSystem, dp: Seq<char>, dn: Seq<char>, pi: usize)
    requires
        s1.wf(),
        s1.resolve_spec(dp) == Ok::<usize, &'static str>(pi),
        s1.inodes@[pi as int].inode_type is Directory,
        !has_entry(s1.inodes@[pi as int].inode_type->entries@, dn),
        s1.create_outcome(s2, dp, dn, false, Ok::<usize, &'static str>(s1.inodes@.len() as usize)),
        plain_name(dn),
    ensures
        s2.resolve_spec(join_path(dp, dn)) == Ok::<usize, &'static str>(s1.inodes@.len() as usize),
{
    let n = s1.inodes@.len();
    s1.lemma_walk_in_range(components(dp));
    lemma_walk_after_create(s1, s2, pi, dn, components(dp));
    let jp = join_path(dp, dn);
    if dp == seq!['/'] {
        let e = Seq::<char>::empty();
        lemma_components_child(e, dn);
        assert(e.push('/') + dn =~= jp);
        assert(e.push('/').drop_last() =~= e);
        assert(components(e) =~= Seq::<Seq<char>>::empty());
        assert(crate::vfs::split_state(seq!['/']) == crate::vfs::split_state(e.push('/')));
        assert(seq!['/'] =~= e.push('/'));
        assert(components(dp) =~= components(e));
    } else {
        lemma_components_child(dp, dn);
        assert(dp.push('/') + dn =~= jp);
    }
    let comps = components(jp);
    assert(comps.drop_last() == components(dp));
    assert(comps.last() == dn);
    let e2 = s2.inodes@[pi as int].inode_type->entries@;
    assert(entry_named(e2, dn, e2.len() - 1));
    lemma_lookup_at(e2, dn, e2.len() - 1);
    assert(s2.walk(comps) == Ok::<usize, &'static str>(n as usize));
    assert(jp[0] == '/');
    assert(s2.resolve_spec(jp) == Ok::<usize, &'static str>(n as usize));
}

/// A copy succeeds when the source is a file whose frames are owned, the
/// destination directory exists and has no entry of the new name (a name
/// without `/`), and enough frames are free for moving every source block
/// and for the copy's own blocks; the copy's blocks are then owned by
/// `pid` and none of them is a block of the source.
pub proof fn law_copy_succeeds(
    fs0: VirtualFileSystem,
    fs1: VirtualFileSystem,
    a0: MemoryAllocator,
    a1: MemoryAllocator,
    src: Seq<char>,
    dp: Seq<char>,
    dn: Seq<char>,
    pid: u32,
    i: usize,
    pi: usize,
    r: Result<(), &'static str>,
)
    requires
        fs0.wf(),
        fs0.copy_outcome(fs1, a0, a1, src, dp, dn, pid, r),
        fs0.resolve_spec(src) == Ok::<usize, &'static str>(i),
        fs0.inodes@[i as int].inode_type is File,
        blocks_owned(a0, fs0.inodes@[i as int].inode_type->blocks@),
        fs0.resolve_spec(dp) == Ok::<usize, &'static str>(pi),
        fs0.inodes@[pi as int].inode_type is Directory,
        !has_entry(fs0.inodes@[pi as int].inode_type->entries@, dn),
        plain_name(dn),
        dp.len() > 0 && dp[0] == '/',
        free_count(a0, TOTAL_PAGES as int) >= fs0.inodes@[i as int].inode_type->blocks@.len() + block_count(
            readable_len(
                fs0.inodes@[i as int].inode_type->blocks@,
                fs0.inodes@[i as int].inode_type->size as nat,
            ),
        ),
    ensures
        r is Ok,
        ({
            let n = fs0.inodes@.len() as int;
            let nb = fs1.inodes@[n].inode_type->blocks@;
            let sb = fs1.inodes@[i as int].inode_type->blocks@;
            &&& fs1.inodes@[n].inode_type is File
            &&& forall|q: int| 0 <= q < nb.len() ==> a1.allocation_map@[#[trigger] nb[q] as int] == Some(pid)
            &&& forall|q: int, k: int| 0 <= q < nb.len() && 0 <= k < sb.len() ==> #[trigger] nb[q] != #[trigger] sb[k]
        }),
{
    let (s1, m1, rr, s2, cr) = choose|
        s1: VirtualFileSystem,
        m1: MemoryAllocator,
        rr: Result<Vec<u8>, &'static str>,
        s2: VirtualFileSystem,
        cr: Result<usize, &'static str>,
    |
        #[trigger] fs0.copy_stages(s1, m1, rr, s2, cr, fs1, a0, a1, src, dp, dn, pid, r);
    let ob = fs0.inodes@[i as int].inode_type->blocks@;
    let size = fs0.inodes@[i as int].inode_type->size;
    assert(rr is Ok);
    let data = rr->Ok_0;
    assert(data@ == file_bytes(a0, ob, size as nat));
    // the read changed only the source's node, a file before and after
    fs0.lemma_walk_in_range(components(src));
    fs0.lemma_walk_in_range(components(dp));
    fs0.lemma_walk_same(s1, i as int, components(dp));
    assert(pi != i);
    assert(s1.inodes@[pi as int] == fs0.inodes@[pi as int]);
    assert(s1.resolve_spec(dp) == Ok::<usize, &'static str>(pi));
    assert(cr is Ok);
    let n = s1.inodes@.len();
    lemma_new_file_resolves(s1, s2, dp, dn, pi);
    let jp = join_path(dp, dn);
    // the new file is empty, so the frames free for it are those free in m1
    let nbl = s2.inodes@[n as int].inode_type->blocks@;
    assert(nbl.len() == 0);
    lemma_count_same(
        |j: int| free_after_release(m1, nbl, j),
        |j: int| m1.is_free(j),
        TOTAL_PAGES as int,
    );
    assert(free_count(m1, TOTAL_PAGES as int) + ob.len() >= free_count(a0, TOTAL_PAGES as int));
    assert(data@.len() == readable_len(ob, size as nat));
    assert(count_true(|j: int| free_after_release(m1, nbl, j), TOTAL_PAGES as int) >= block_count(
        data@.len(),
    ));
    // the copy's blocks were free after the read; the source's were owned
    let nb = fs1.inodes@[n as int].inode_type->blocks@;
    let sb = s1.inodes@[i as int].inode_type->blocks@;
    assert(fs1.inodes@[i as int] == s2.inodes@[i as int]);
    assert(s2.inodes@[i as int] == s1.inodes@[i as int]);
    assert forall|q: int, k: int| 0 <= q < nb.len() && 0 <= k < sb.len() implies #[trigger] nb[q] != #[trigger] sb[k] by {
        assert(free_after_release(m1, nbl, nb[q] as int));
        assert(m1.is_free(nb[q] as int));
        assert(ob[k] < TOTAL_PAGES);
        if sb[k] != ob[k] {
            assert(m1.allocation_map@[sb[k] as int] == a0.allocation_map@[ob[k] as int]);
        } else {
            assert(m1.allocation_map@[ob[k] as int] == a0.allocation_map@[ob[k] as int]);
        }
    }
}


/// Frames that kept the salvageable bytes of a file's frames give the same
/// file bytes.
proof fn lemma_file_bytes_kept(
    a0: MemoryAllocator,
    a: MemoryAllocator,
    ob: Seq<usize>,
    nb: Seq<usize>,
    size: nat,
)
    requires
        nb.len() == ob.len(),
        contents_kept(a0, a, ob, nb, ob.len() as int),
    ensures
        file_bytes(a, nb, size) == file_bytes(a0, ob, size),
{
    assert forall|x: int| 0 <= x < readable_len(nb, size) implies #[trigger] file_bytes(a, nb, size)[x]
        == file_bytes(a0, ob, size)[x] by {
        let q = x / (PAGE_SIZE as int);
        let k = x % (PAGE_SIZE as int);
        assert(0 <= q < nb.len()) by (nonlinear_arith)
            requires
                0 <= x < readable_len(nb, size),
                readable_len(nb, size) <= nb.len() * 64,
                q == x / 64,
        ;
        assert(crate::allocator::same_contents(a.frames@[nb[q] as int], a0.frames@[ob[q] as int]));
    }
    assert(file_bytes(a, nb, size) =~= file_bytes(a0, ob, size));
}

/// After a successful copy of a file whose words all decode (single-bit
/// flips included), the source still reads as the bytes it held when the
/// copy began.
pub proof fn law_source_after_copy(
    fs0: VirtualFileSystem,
    fs1: VirtualFileSystem,
    fs2: VirtualFileSystem,
    a0: MemoryAllocator,
    a1: MemoryAllocator,
    a2: MemoryAllocator,
    src: Seq<char>,
    dp: Seq<char>,
    dn: Seq<char>,
    pid: u32,
    i: usize,
    read: Result<Vec<u8>, &'static str>,
)
    requires
        fs0.wf(),
        fs0.copy_outcome(fs1, a0, a1, src, dp, dn, pid, Ok(())),
        fs0.resolve_spec(src) == Ok::<usize, &'static str>(i),
        fs0.inodes@[i as int].inode_type is File,
        blocks_owned(a0, fs0.inodes@[i as int].inode_type->blocks@),
        file_decodable(
            a0,
            fs0.inodes@[i as int].inode_type->blocks@,
            fs0.inodes@[i as int].inode_type->size as nat,
        ),
        plain_name(dn),
        fs1.read_outcome(fs2, a1, a2, src, read),
    ensures
        read matches Ok(v) && v@ == file_bytes(
            a0,
            fs0.inodes@[i as int].inode_type->blocks@,
            fs0.inodes@[i as int].inode_type->size as nat,
        ),
{
    let (s1, m1, rr, s2, cr) = choose|
        s1: VirtualFileSystem,
        m1: MemoryAllocator,
        rr: Result<Vec<u8>, &'static str>,
        s2: VirtualFileSystem,
        cr: Result<usize, &'static str>,
    |
        #[trigger] fs0.copy_stages(s1, m1, rr, s2, cr, fs1, a0, a1, src, dp, dn, pid, Ok(()));
    let ob = fs0.inodes@[i as int].inode_type->blocks@;
    let size = fs0.inodes@[i as int].inode_type->size;
    let comps = components(src);
    // the source resolves to `i` through every stage
    fs0.lemma_walk_in_range(comps);
    fs0.lemma_walk_same(s1, i as int, comps);
    let pi = s1.resolve_spec(dp)->Ok_0;
    s1.lemma_walk_in_range(components(dp));
    lemma_walk_after_create(s1, s2, pi, dn, comps);
    let jp = join_path(dp, dn);
    lemma_new_file_resolves(s1, s2, dp, dn, pi);
    let iw = s2.resolve_spec(jp)->Ok_0;
    s2.lemma_walk_in_range(components(jp));
    assert(s2.walk(comps) == Ok::<usize, &'static str>(i));
    s2.lemma_walk_same(fs1, iw as int, comps);
    assert(fs1.resolve_spec(src) == Ok::<usize, &'static str>(i));
    // the read inside the copy kept the blocks and did no new damage
    let sb = s1.inodes@[i as int].inode_type->blocks@;
    assert(sb == ob);
    assert(i != pi);
    assert(iw != i);
    assert(fs1.inodes@[i as int] == s2.inodes@[i as int]);
    assert(s2.inodes@[i as int] == s1.inodes@[i as int]);
    let nbl = s2.inodes@[iw as int].inode_type->blocks@;
    let nbw = fs1.inodes@[iw as int].inode_type->blocks@;
    assert forall|k: int| 0 <= k < sb.len() implies !in_blocks(nbw, #[trigger] sb[k] as int) by {
        if in_blocks(nbw, sb[k] as int) {
            let q = choose|q: int| 0 <= q < nbw.len() && #[trigger] nbw[q] == sb[k] as int;
            assert(free_after_release(m1, nbl, nbw[q] as int));
            assert(sb[k] < TOTAL_PAGES);
            assert(!in_blocks(nbl, sb[k] as int));
            assert(m1.allocation_map@[sb[k] as int] is Some);
        }
    }
    assert forall|k: int| 0 <= k < sb.len() implies #[trigger] a1.frames@[sb[k] as int] == m1.frames@[sb[k] as int]
        && a1.allocation_map@[sb[k] as int] == m1.allocation_map@[sb[k] as int] by {
        assert(!in_blocks(nbw, sb[k] as int));
        assert(sb[k] < TOTAL_PAGES);
        assert(!in_blocks(nbl, sb[k] as int));
    }
    assert(blocks_owned(a1, sb));
    assert forall|x: int| 0 <= x < readable_len(sb, size as nat) implies !((#[trigger] decode_spec(
        file_word(a1, sb, x),
    )) is Uncorrectable) by {
        let q = x / (PAGE_SIZE as int);
        let k = x % (PAGE_SIZE as int);
        assert(0 <= q < sb.len()) by (nonlinear_arith)
            requires
                0 <= x < readable_len(sb, size as nat),
                readable_len(sb, size as nat) <= sb.len() * 64,
                q == x / 64,
        ;
        assert(!(decode_spec(file_word(a0, ob, x)) is Uncorrectable));
        assert(file_word(a0, ob, x) == a0.frames@[ob[q] as int].data[k]);
        assert(file_word(a1, sb, x) == a1.frames@[sb[q] as int].data[k]);
        assert(!(decode_spec(m1.frames@[ob[q] as int].data[k]) is Uncorrectable));
    }
    lemma_file_bytes_kept(a0, m1, ob, sb, size as nat);
    assert(file_bytes(a1, sb, size as nat) =~= file_bytes(m1, sb, size as nat));
}

} // verus!
