//! Simulated physical memory: SECDED-protected page frames and the page
//! allocator that tracks ownership, quarantines damaged frames and relocates
//! their contents.
use vstd::prelude::*;
use crate::ecc::{self, DecodeResult, decode_spec, encode_spec, recovered_byte};

verus! {

/// Size of one page frame in bytes (one SECDED word per byte).
pub const PAGE_SIZE: usize = 64;

/// Number of page frames in the simulated physical memory (an 8x8 grid).
pub const TOTAL_PAGES: usize = 64;

/// Threshold of corrected flips at which a recovered frame is quarantined.
pub const RECOVERY_LIMIT: usize = 5;

pub const ERR_WRITE_QUARANTINED: &'static str = "Cannot write to a quarantined physical page.";
pub const ERR_WRITE_BOUNDS: &'static str = "Write index out of bounds.";
pub const ERR_INVALID_FRAME: &'static str = "Invalid frame index.";
pub const ERR_FLIP_FRAME: &'static str = "Frame index out of bounds.";
pub const ERR_FLIP_OFFSET: &'static str = "Offset out of bounds.";
pub const ERR_FLIP_BIT: &'static str = "Bit index must be between 0 and 15.";
pub const ERR_RELOCATE_BOUNDS: &'static str = "Damaged frame index out of bounds.";
pub const ERR_RELOCATE_UNALLOCATED: &'static str = "Cannot relocate a page that is not allocated.";
pub const ERR_RELOCATE_OOM: &'static str = "Out of memory: Unable to relocate quarantined page data.";

/// A single-bit repair observed while reading a frame.
#[derive(Debug, Clone, Copy, PartialEq, Eq, Structural)]
pub struct CorrectionEvent {
    /// Index of the frame that was repaired.
    pub frame_index: usize,
    /// Byte offset within the frame.
    pub offset: usize,
    /// 1-indexed position (1..=13) of the corrected bit.
    pub bit_position: usize,
}

/// Health of a page frame.
#[derive(Debug, Clone, Copy, PartialEq, Eq, Structural)]
pub enum PageStatus {
    /// No flip has ever been corrected on this frame.
    Healthy,
    /// Single-bit flips were corrected; the frame is still usable.
    Recovered {
        /// Number of corrected flips so far.
        corrected_count: usize,
    },
    /// The frame saw an uncorrectable flip or too many corrections and is
    /// barred from allocation and writes.
    Quarantined,
}

/// A simulated physical page frame of SECDED words.
#[derive(Debug, Clone)]
pub struct PhysicalFrame {
    /// Position of the frame in the allocator.
    pub index: usize,
    /// Simulated physical start address.
    pub physical_address: usize,
    /// One SECDED word per byte of the page.
    pub data: [u16; PAGE_SIZE],
    /// Health of the frame.
    pub status: PageStatus,
}

/// The status a frame moves to after one more single-bit correction.
pub open spec fn status_after_correction(s: PageStatus) -> PageStatus {
    match s {
        PageStatus::Healthy => PageStatus::Recovered { corrected_count: 1 },
        PageStatus::Recovered { corrected_count } => if corrected_count + 1 >= RECOVERY_LIMIT {
            PageStatus::Quarantined
        } else {
            PageStatus::Recovered { corrected_count: (corrected_count + 1) as usize }
        },
        PageStatus::Quarantined => PageStatus::Quarantined,
    }
}

/// What reading the byte at `offset` of frame `f0` does: `f1` is the frame
/// afterwards and `r` the result.
pub open spec fn read_byte_outcome(
    f0: PhysicalFrame,
    f1: PhysicalFrame,
    offset: usize,
    r: Result<(u8, Option<CorrectionEvent>), usize>,
) -> bool {
    &&& offset >= PAGE_SIZE ==> r == Err::<(u8, Option<CorrectionEvent>), usize>(f0.index) && f1 == f0
    &&& offset < PAGE_SIZE ==> (match decode_spec(f0.data[offset as int]) {
        DecodeResult::NoError(v) => r == Ok::<(u8, Option<CorrectionEvent>), usize>((v, None)) && f1 == f0,
        DecodeResult::Corrected(v, p) => r == Ok::<(u8, Option<CorrectionEvent>), usize>(
            (v, Some(CorrectionEvent { frame_index: f0.index, offset: offset, bit_position: p })),
        ) && f1.data@ == f0.data@.update(offset as int, encode_spec(v)) && f1.status
            == status_after_correction(f0.status),
        DecodeResult::Uncorrectable => r == Err::<(u8, Option<CorrectionEvent>), usize>(f0.index)
            && f1.data == f0.data && f1.status == PageStatus::Quarantined,
    })
}

/// One more corrected flip: a healthy frame has seen one, a recovered frame
/// one more than before, and the frame is quarantined once its count
/// reaches five; a quarantined frame stays so.
pub open spec fn corrected_read_status(s0: PageStatus, s1: PageStatus) -> bool {
    match s0 {
        PageStatus::Healthy => s1 == PageStatus::Recovered { corrected_count: 1 },
        PageStatus::Recovered { corrected_count: c } => if c + 1 >= 5 {
            s1 == PageStatus::Quarantined
        } else {
            s1 == PageStatus::Recovered { corrected_count: (c + 1) as usize }
        },
        PageStatus::Quarantined => s1 == PageStatus::Quarantined,
    }
}

/// The correction counter of `s` can still be incremented without overflow.
pub open spec fn counter_ok(s: PageStatus) -> bool {
    s matches PageStatus::Recovered { corrected_count } ==> corrected_count < usize::MAX
}

/// `f` and `g` agree on everything but the data words and the status.
pub open spec fn same_identity(f: PhysicalFrame, g: PhysicalFrame) -> bool {
    f.index == g.index && f.physical_address == g.physical_address
}

impl PhysicalFrame {
    /// A healthy frame whose words all hold the codeword of 0.
    pub fn new(index: usize, physical_address: usize) -> (f: Self)
        ensures
            f.index == index,
            f.physical_address == physical_address,
            f.status == PageStatus::Healthy,
            forall|k: int| 0 <= k < PAGE_SIZE ==> #[trigger] f.data[k] == 0u16,
            forall|k: int| 0 <= k < PAGE_SIZE ==> #[trigger] f.data[k] == encode_spec(0u8),
    {
        proof {
            assert(encode_spec(0u8) == 0u16) by (bit_vector);
        }
        Self { index, physical_address, data: [0u16; PAGE_SIZE], status: PageStatus::Healthy }
    }

    /// Encodes `value` and stores it at `offset`, unless the frame is
    /// quarantined or the offset is out of bounds.
    pub fn write_byte(&mut self, offset: usize, value: u8) -> (r: Result<(), &'static str>)
        ensures
            old(self).status == PageStatus::Quarantined ==> r == Err::<(), &'static str>(
                ERR_WRITE_QUARANTINED,
            ) && *final(self) == *old(self),
            old(self).status != PageStatus::Quarantined && offset >= PAGE_SIZE ==> r == Err::<
                (),
                &'static str,
            >(ERR_WRITE_BOUNDS) && *final(self) == *old(self),
            old(self).status != PageStatus::Quarantined && offset < PAGE_SIZE ==> r is Ok
                && final(self).data@ == old(self).data@.update(offset as int, encode_spec(value))
                && final(self).status == old(self).status && same_identity(*final(self), *old(self)),
    {
        if self.status == PageStatus::Quarantined {
            return Err(ERR_WRITE_QUARANTINED);
        }
        if offset >= PAGE_SIZE {
            return Err(ERR_WRITE_BOUNDS);
        }
        self.data[offset] = ecc::encode(value);
        Ok(())
    }

    /// Reads and verifies the byte at `offset`. A single-bit flip is repaired
    /// in place and reported; an uncorrectable word quarantines the frame and
    /// yields `Err(index)`, as does an out-of-bounds offset.
    pub fn read_byte(&mut self, offset: usize) -> (r: Result<(u8, Option<CorrectionEvent>), usize>)
        requires
            counter_ok(old(self).status),
        ensures
            counter_ok(final(self).status),
            same_identity(*final(self), *old(self)),
            read_byte_outcome(*old(self), *final(self), offset, r),
            r matches Ok((_, Some(_))) ==> corrected_read_status(old(self).status, final(self).status),
            r matches Ok((_, None)) ==> final(self).status == old(self).status,
            r is Err ==> final(self).status == PageStatus::Quarantined || offset >= PAGE_SIZE,
    {
        if offset >= PAGE_SIZE {
            return Err(self.index);
        }
        let encoded_word = self.data[offset];
        match ecc::decode(encoded_word) {
            DecodeResult::NoError(value) => Ok((value, None)),
            DecodeResult::Corrected(value, bit_pos) => {
                self.data[offset] = ecc::encode(value);
                self.status =
                match self.status {
                    PageStatus::Healthy => PageStatus::Recovered { corrected_count: 1 },
                    PageStatus::Recovered { corrected_count } => {
                        let count = corrected_count + 1;
                        if count >= RECOVERY_LIMIT {
                            PageStatus::Quarantined
                        } else {
                            PageStatus::Recovered { corrected_count: count }
                        }
                    },
                    PageStatus::Quarantined => PageStatus::Quarantined,
                };
                let event = CorrectionEvent {
                    frame_index: self.index,
                    offset,
                    bit_position: bit_pos,
                };
                Ok((value, Some(event)))
            },
            DecodeResult::Uncorrectable => {
                self.status = PageStatus::Quarantined;
                Err(self.index)
            },
        }
    }
}


/// A read that repaired a flip advances the frame's count of corrections by
/// one: from healthy to one, from `c` to `c + 1`, and to quarantine once the
/// count reaches five.
pub proof fn law_correction_counted(
    f0: PhysicalFrame,
    f1: PhysicalFrame,
    offset: usize,
    r: Result<(u8, Option<CorrectionEvent>), usize>,
)
    requires
        read_byte_outcome(f0, f1, offset, r),
        (r matches Ok((_, Some(_)))),
    ensures
        f0.status == PageStatus::Healthy ==> f1.status == (PageStatus::Recovered { corrected_count: 1 }),
        f0.status matches PageStatus::Recovered { corrected_count: c } ==> (if c + 1 < 5 {
            f1.status == (PageStatus::Recovered { corrected_count: (c + 1) as usize })
        } else {
            f1.status == PageStatus::Quarantined
        }),
        f0.status == PageStatus::Quarantined ==> f1.status == PageStatus::Quarantined,
        f1.data@[offset as int] == encode_spec(r->Ok_0.0),
{
}

/// Reads that each repaired a flip, one after another on the same frame: the
/// frame is quarantined, or has counted at least one correction per read,
/// fewer than five in all.
pub proof fn lemma_corrections_accumulate(
    fs: Seq<PhysicalFrame>,
    offs: Seq<usize>,
    rs: Seq<Result<(u8, Option<CorrectionEvent>), usize>>,
)
    requires
        fs.len() >= 1,
        offs.len() == fs.len() - 1,
        rs.len() == fs.len() - 1,
        forall|k: int|
            0 <= k < fs.len() - 1 ==> #[trigger] read_byte_outcome(fs[k], fs[k + 1], offs[k], rs[k]),
        forall|k: int| 0 <= k < fs.len() - 1 ==> (#[trigger] rs[k]) matches Ok((_, Some(_))),
    ensures
        fs.len() > 1 ==> (fs.last().status == PageStatus::Quarantined || (fs.last().status matches PageStatus::Recovered {
            corrected_count: c,
        } && fs.len() - 1 <= c < 5)),
    decreases fs.len(),
{
    if fs.len() > 1 {
        let n = fs.len() - 1;
        lemma_corrections_accumulate(fs.drop_last(), offs.drop_last(), rs.drop_last());
        let k = n - 1;
        assert(read_byte_outcome(fs[k], fs[k + 1], offs[k], rs[k]));
        assert(rs[k] matches Ok((_, Some(_))));
        law_correction_counted(fs[k], fs[k + 1], offs[k], rs[k]);
        assert(fs.drop_last().last() == fs[k]);
        assert(fs.last() == fs[k + 1]);
    }
}

/// Five reads in a row that each repaired a single-bit flip on one frame
/// leave it quarantined, whatever its status before.
pub proof fn law_repeated_corrections_quarantine(
    fs: Seq<PhysicalFrame>,
    offs: Seq<usize>,
    rs: Seq<Result<(u8, Option<CorrectionEvent>), usize>>,
)
    requires
        fs.len() == 6,
        offs.len() == 5,
        rs.len() == 5,
        forall|k: int| 0 <= k < 5 ==> #[trigger] read_byte_outcome(fs[k], fs[k + 1], offs[k], rs[k]),
        forall|k: int| 0 <= k < 5 ==> (#[trigger] rs[k]) matches Ok((_, Some(_))),
    ensures
        fs[5].status == PageStatus::Quarantined,
{
    lemma_corrections_accumulate(fs, offs, rs);
}

/// Every word of `f` is a valid codeword.
pub open spec fn frame_clean(f: PhysicalFrame) -> bool {
    forall|k: int| 0 <= k < PAGE_SIZE ==> (#[trigger] decode_spec(f.data[k])) is NoError
}

/// `f` and `g` hold the same salvageable bytes.
pub open spec fn same_contents(f: PhysicalFrame, g: PhysicalFrame) -> bool {
    forall|k: int|
        0 <= k < PAGE_SIZE ==> #[trigger] recovered_byte(f.data[k]) == recovered_byte(g.data[k])
}

/// Number of indices below `n` that satisfy `p`.
pub open spec fn count_true(p: spec_fn(int) -> bool, n: int) -> nat
    decreases n,
{
    if n <= 0 {
        0
    } else {
        count_true(p, n - 1) + if p(n - 1) {
            1nat
        } else {
            0nat
        }
    }
}

/// Number of free frames among the first `n` frames of `a`.
pub open spec fn free_count(a: MemoryAllocator, n: int) -> nat {
    count_true(|j: int| a.is_free(j), n)
}

/// The count is zero exactly when no index below `n` satisfies `p`.
pub proof fn lemma_count_zero(p: spec_fn(int) -> bool, n: int)
    requires
        0 <= n,
    ensures
        (count_true(p, n) == 0) <==> (forall|j: int| 0 <= j < n ==> !#[trigger] p(j)),
    decreases n,
{
    if n > 0 {
        lemma_count_zero(p, n - 1);
    }
}

/// Turning one satisfied index unsatisfied lowers the count by one.
pub proof fn lemma_count_take(p: spec_fn(int) -> bool, q: spec_fn(int) -> bool, n: int, i: int)
    requires
        0 <= i < n,
        p(i),
        !q(i),
        forall|j: int| 0 <= j < n && j != i ==> #[trigger] p(j) == q(j),
    ensures
        count_true(q, n) + 1 == count_true(p, n),
    decreases n,
{
    if n - 1 > i {
        lemma_count_take(p, q, n - 1, i);
    } else {
        lemma_count_same(p, q, n - 1);
    }
}

/// Predicates that agree below `n` have the same count.
pub proof fn lemma_count_same(p: spec_fn(int) -> bool, q: spec_fn(int) -> bool, n: int)
    requires
        forall|j: int| 0 <= j < n ==> #[trigger] p(j) == q(j),
    ensures
        count_true(q, n) == count_true(p, n),
    decreases n,
{
    if n > 0 {
        lemma_count_same(p, q, n - 1);
    }
}

/// Table of page frames and of their owners.
#[derive(Debug, Clone)]
pub struct MemoryAllocator {
    /// The simulated frames; frame `i` sits at position `i`.
    pub frames: Vec<PhysicalFrame>,
    /// Owner of each frame by PID; `None` marks a free frame.
    pub allocation_map: Vec<Option<u32>>,
}

impl MemoryAllocator {
    /// Both tables cover every frame, each frame sits at its own index, and
    /// no correction counter is about to overflow.
    pub open spec fn wf(&self) -> bool {
        &&& self.frames@.len() == TOTAL_PAGES
        &&& self.allocation_map@.len() == TOTAL_PAGES
        &&& forall|i: int|
            #![trigger self.frames@[i]]
            0 <= i < TOTAL_PAGES ==> self.frames@[i].index == i && counter_ok(
                self.frames@[i].status,
            )
    }

    /// Frame `i` is unowned and not quarantined, so it may be allocated.
    pub open spec fn is_free(&self, i: int) -> bool {
        self.allocation_map@[i] is None && self.frames@[i].status != PageStatus::Quarantined
    }

    /// Frame `i` is owned and not quarantined.
    pub open spec fn is_active(&self, i: int) -> bool {
        self.allocation_map@[i] is Some && self.frames@[i].status != PageStatus::Quarantined
    }

    /// Every frame is free, healthy, zero-filled and at address `i * PAGE_SIZE`.
    pub open spec fn is_fresh(&self) -> bool {
        &&& self.wf()
        &&& forall|i: int|
            #![trigger self.frames@[i]]
            0 <= i < TOTAL_PAGES ==> self.frames@[i].status == PageStatus::Healthy
                && self.frames@[i].physical_address == i * PAGE_SIZE && forall|k: int|
                0 <= k < PAGE_SIZE ==> #[trigger] self.frames@[i].data[k] == encode_spec(0u8)
        &&& forall|i: int| 0 <= i < TOTAL_PAGES ==> #[trigger] self.allocation_map@[i] is None
    }

    /// A fresh allocator: every frame free, healthy and zero-filled.
    pub fn new() -> (a: Self)
        ensures
            a.is_fresh(),
    {
        let mut frames: Vec<PhysicalFrame> = Vec::with_capacity(TOTAL_PAGES);
        let mut allocation_map: Vec<Option<u32>> = Vec::with_capacity(TOTAL_PAGES);
        for idx in 0..TOTAL_PAGES
            invariant
                frames@.len() == idx,
                allocation_map@.len() == idx,
                forall|i: int|
                    #![trigger frames@[i]]
                    0 <= i < idx ==> frames@[i].index == i && frames@[i].status
                        == PageStatus::Healthy && frames@[i].physical_address == i * PAGE_SIZE
                        && forall|k: int|
                        0 <= k < PAGE_SIZE ==> #[trigger] frames@[i].data[k] == encode_spec(0u8),
                forall|i: int| 0 <= i < idx ==> #[trigger] allocation_map@[i] is None,
        {
            let start_address = idx * PAGE_SIZE;
            frames.push(PhysicalFrame::new(idx, start_address));
            allocation_map.push(None);
        }
        Self { frames, allocation_map }
    }

    /// Hands the lowest-indexed free frame to `pid`; `None` when no frame is
    /// free.
    pub fn allocate_page(&mut self, pid: u32) -> (r: Option<usize>)
        requires
            old(self).wf(),
        ensures
            final(self).wf(),
            final(self).frames@ == old(self).frames@,
            match r {
                Some(i) => i < TOTAL_PAGES && old(self).is_free(i as int) && (forall|j: int|
                    0 <= j < i ==> !old(self).is_free(j)) && final(self).allocation_map@ == old(self).allocation_map@.update(i as int, Some(pid)),
                None => (forall|j: int| 0 <= j < TOTAL_PAGES ==> !old(self).is_free(j))
                    && final(self).allocation_map@ == old(self).allocation_map@,
            },
    {
        for idx in 0..TOTAL_PAGES
            invariant
                self.wf(),
                *self == *old(self),
                forall|j: int| 0 <= j < idx ==> !old(self).is_free(j),
        {
            if self.allocation_map[idx].is_none() && self.frames[idx].status
                != PageStatus::Quarantined {
                self.allocation_map[idx] = Some(pid);
                return Some(idx);
            }
        }
        None
    }

    /// Releases a frame back to the free pool.
    pub fn deallocate_page(&mut self, frame_index: usize) -> (r: Result<(), &'static str>)
        requires
            old(self).wf(),
        ensures
            final(self).wf(),
            final(self).frames@ == old(self).frames@,
            frame_index >= TOTAL_PAGES ==> r == Err::<(), &'static str>(ERR_INVALID_FRAME)
                && final(self).allocation_map@ == old(self).allocation_map@,
            frame_index < TOTAL_PAGES ==> r is Ok && final(self).allocation_map@ == old(self).allocation_map@.update(frame_index as int, None),
    {
        if frame_index >= TOTAL_PAGES {
            return Err(ERR_INVALID_FRAME);
        }
        self.allocation_map[frame_index] = None;
        Ok(())
    }

    /// Flips bit `bit_index` of the word at `offset` of a frame, simulating
    /// a hardware fault.
    pub fn inject_bit_flip(&mut self, frame_index: usize, offset: usize, bit_index: u8) -> (r:
        Result<(), &'static str>)
        requires
            old(self).wf(),
        ensures
            final(self).wf(),
            flip_outcome(*old(self), *final(self), frame_index, offset, bit_index, r),
    {
        if frame_index >= TOTAL_PAGES {
            return Err(ERR_FLIP_FRAME);
        }
        if offset >= PAGE_SIZE {
            return Err(ERR_FLIP_OFFSET);
        }
        if bit_index >= 16 {
            return Err(ERR_FLIP_BIT);
        }
        self.frames[frame_index].data[offset] ^= 1u16 << bit_index;
        Ok(())
    }

    /// Quarantines and releases frame `damaged`, then moves its owner to the
    /// lowest-indexed free frame and copies over every byte that can be
    /// salvaged (uncorrectable words become 0). Returns the new frame index.
    pub fn relocate_and_quarantine(&mut self, damaged: usize) -> (r: Result<usize, &'static str>)
        requires
            old(self).wf(),
        ensures
            final(self).wf(),
            damaged >= TOTAL_PAGES ==> r == Err::<usize, &'static str>(ERR_RELOCATE_BOUNDS)
                && *final(self) == *old(self),
            damaged < TOTAL_PAGES && old(self).allocation_map@[damaged as int] is None ==> r
                == Err::<usize, &'static str>(ERR_RELOCATE_UNALLOCATED) && *final(self) == *old(
                self),
            damaged < TOTAL_PAGES && old(self).allocation_map@[damaged as int] is Some ==> {
                &&& final(self).frames@[damaged as int].status == PageStatus::Quarantined
                &&& final(self).frames@[damaged as int].data == old(self).frames@[damaged as int].data
                &&& same_identity(final(self).frames@[damaged as int], old(self).frames@[damaged as int])
                &&& match r {
                    Ok(n) => {
                        &&& n < TOTAL_PAGES && n != damaged && old(self).is_free(n as int)
                        &&& forall|j: int| 0 <= j < n && j != damaged ==> !old(self).is_free(j)
                        &&& final(self).allocation_map@ == old(self).allocation_map@.update(
                            damaged as int,
                            None,
                        ).update(n as int, old(self).allocation_map@[damaged as int])
                        &&& forall|j: int|
                            0 <= j < TOTAL_PAGES && j != damaged && j != n ==> #[trigger] final(
                                self).frames@[j] == old(self).frames@[j]
                        &&& final(self).frames@[n as int].status == old(self).frames@[n as int].status
                        &&& same_identity(final(self).frames@[n as int], old(self).frames@[n as int])
                        &&& forall|k: int|
                            0 <= k < PAGE_SIZE ==> #[trigger] final(self).frames@[n as int].data[k]
                                == encode_spec(recovered_byte(old(self).frames@[damaged as int].data[k]))
                    },
                    Err(e) => {
                        &&& e == ERR_RELOCATE_OOM
                        &&& forall|j: int| 0 <= j < TOTAL_PAGES && j != damaged ==> !old(self).is_free(j)
                        &&& final(self).allocation_map@ == old(self).allocation_map@.update(
                            damaged as int,
                            None,
                        )
                        &&& forall|j: int|
                            0 <= j < TOTAL_PAGES && j != damaged ==> #[trigger] final(
                                self).frames@[j] == old(self).frames@[j]
                    },
                }
            },
    {
        if damaged >= TOTAL_PAGES {
            return Err(ERR_RELOCATE_BOUNDS);
        }
        let pid = match self.allocation_map[damaged] {
            Some(p) => p,
            None => return Err(ERR_RELOCATE_UNALLOCATED),
        };
        self.frames[damaged].status = PageStatus::Quarantined;
        self.allocation_map[damaged] = None;
        let ghost mid = *self;
        assert(mid.frames@[damaged as int].status == PageStatus::Quarantined);
        assert(mid.frames@[damaged as int].data == old(self).frames@[damaged as int].data);
        assert(mid.wf());
        assert(forall|j: int|
            0 <= j < TOTAL_PAGES && j != damaged ==> #[trigger] mid.frames@[j] == old(self).frames@[j]);
        assert(forall|j: int|
            0 <= j < TOTAL_PAGES ==> (#[trigger] mid.is_free(j) <==> (old(self).is_free(j) && j
                != damaged)));
        let new_frame_index = match self.allocate_page(pid) {
            Some(idx) => idx,
            None => {
                assert(self.frames@[damaged as int].status == PageStatus::Quarantined);
                assert forall|j: int| 0 <= j < TOTAL_PAGES && j != damaged implies !old(self).is_free(
                    j,
                ) by {
                    assert(!mid.is_free(j));
                }
                return Err(ERR_RELOCATE_OOM);
            },
        };
        assert(new_frame_index != damaged);
        assert forall|j: int| 0 <= j < new_frame_index && j != damaged implies !old(self).is_free(
            j,
        ) by {
            assert(!mid.is_free(j));
        }
        assert(old(self).is_free(new_frame_index as int)) by {
            assert(mid.is_free(new_frame_index as int));
        }
        for offset in 0..PAGE_SIZE
            invariant
                self.wf(),
                mid.wf(),
                mid.frames@[damaged as int].status == PageStatus::Quarantined,
                mid.frames@[damaged as int].data == old(self).frames@[damaged as int].data,
                same_identity(mid.frames@[damaged as int], old(self).frames@[damaged as int]),
                mid.allocation_map@ == old(self).allocation_map@.update(damaged as int, None),
                forall|j: int|
                    0 <= j < TOTAL_PAGES && j != damaged ==> #[trigger] mid.frames@[j] == old(
                        self).frames@[j],
                new_frame_index < TOTAL_PAGES,
                damaged < TOTAL_PAGES,
                new_frame_index != damaged,
                self.allocation_map@ == mid.allocation_map@.update(
                    new_frame_index as int,
                    Some(pid),
                ),
                forall|j: int|
                    0 <= j < TOTAL_PAGES && j != new_frame_index ==> #[trigger] self.frames@[j]
                        == mid.frames@[j],
                self.frames@[new_frame_index as int].status == mid.frames@[new_frame_index as int].status,
                self.frames@[new_frame_index as int].status != PageStatus::Quarantined,
                same_identity(self.frames@[new_frame_index as int], mid.frames@[new_frame_index as int]),
                forall|k: int|
                    0 <= k < offset ==> #[trigger] self.frames@[new_frame_index as int].data[k]
                        == encode_spec(recovered_byte(mid.frames@[damaged as int].data[k])),
        {
            let encoded_word = self.frames[damaged].data[offset];
            let data_byte = match ecc::decode(encoded_word) {
                DecodeResult::NoError(val) => val,
                DecodeResult::Corrected(val, _) => val,
                DecodeResult::Uncorrectable => 0,
            };
            let _ = self.frames[new_frame_index].write_byte(offset, data_byte);
        }
        Ok(new_frame_index)
    }
}

impl Default for MemoryAllocator {
    fn default() -> (a: Self)
        ensures
            a.is_fresh(),
    {
        Self::new()
    }
}

/// What flipping bit `bit_index` of word `offset` of frame `frame_index`
/// does: out-of-range arguments are refused and change nothing; otherwise
/// exactly that bit of that word changes.
pub open spec fn flip_outcome(
    a0: MemoryAllocator,
    a1: MemoryAllocator,
    frame_index: usize,
    offset: usize,
    bit_index: u8,
    r: Result<(), &'static str>,
) -> bool {
    &&& a1.allocation_map@ == a0.allocation_map@
    &&& frame_index >= TOTAL_PAGES ==> r == Err::<(), &'static str>(ERR_FLIP_FRAME) && a1 == a0
    &&& frame_index < TOTAL_PAGES && offset >= PAGE_SIZE ==> r == Err::<(), &'static str>(ERR_FLIP_OFFSET)
        && a1 == a0
    &&& frame_index < TOTAL_PAGES && offset < PAGE_SIZE && bit_index >= 16 ==> r == Err::<(), &'static str>(
        ERR_FLIP_BIT,
    ) && a1 == a0
    &&& frame_index < TOTAL_PAGES && offset < PAGE_SIZE && bit_index < 16 ==> {
        let f0 = a0.frames@[frame_index as int];
        let f1 = a1.frames@[frame_index as int];
        &&& r is Ok
        &&& a1.frames@.len() == TOTAL_PAGES
        &&& forall|j: int| 0 <= j < TOTAL_PAGES && j != frame_index ==> #[trigger] a1.frames@[j] == a0.frames@[j]
        &&& f1.status == f0.status
        &&& same_identity(f1, f0)
        &&& f1.data@ == f0.data@.update(offset as int, f0.data[offset as int] ^ (1u16 << bit_index))
    }
}

/// Frames in use, frames quarantined and frames free, in that order.
pub open spec fn usage_counts(a: MemoryAllocator) -> (nat, nat, nat) {
    (
        count_true(|i: int| a.frames@[i].status != PageStatus::Quarantined && a.allocation_map@[i] is Some, TOTAL_PAGES as int),
        count_true(|i: int| a.frames@[i].status == PageStatus::Quarantined, TOTAL_PAGES as int),
        count_true(|i: int| a.frames@[i].status != PageStatus::Quarantined && a.allocation_map@[i] is None, TOTAL_PAGES as int),
    )
}

impl MemoryAllocator {
    /// Counts the frames in use, quarantined and free.
    pub fn frame_usage(&self) -> (r: (usize, usize, usize))
        requires
            self.wf(),
        ensures
            (r.0 as nat, r.1 as nat, r.2 as nat) == usage_counts(*self),
    {
        let mut used: usize = 0;
        let mut quarantined: usize = 0;
        let mut free: usize = 0;
        let mut idx: usize = 0;
        while idx < TOTAL_PAGES
            invariant
                self.wf(),
                idx <= TOTAL_PAGES,
                used <= idx && quarantined <= idx && free <= idx,
                used == count_true(|i: int| self.frames@[i].status != PageStatus::Quarantined && self.allocation_map@[i] is Some, idx as int),
                quarantined == count_true(|i: int| self.frames@[i].status == PageStatus::Quarantined, idx as int),
                free == count_true(|i: int| self.frames@[i].status != PageStatus::Quarantined && self.allocation_map@[i] is None, idx as int),
            decreases TOTAL_PAGES - idx,
        {
            if self.frames[idx].status == PageStatus::Quarantined {
                quarantined = quarantined + 1;
            } else if self.allocation_map[idx].is_some() {
                used = used + 1;
            } else {
                free = free + 1;
            }
            idx = idx + 1;
        }
        (used, quarantined, free)
    }
}

} // verus!
