//! Background memory scrubbing: sweeps every active frame, repairs
//! single-bit flips in place and relocates frames with uncorrectable words.
use vstd::prelude::*;
use crate::allocator::{
    MemoryAllocator, PhysicalFrame, PageStatus, CorrectionEvent, PAGE_SIZE, TOTAL_PAGES, frame_clean,
    same_contents, same_identity,
};
use crate::ecc::{DecodeResult, decode_spec, encode_spec, recovered_byte, lemma_decode_encode};

verus! {

/// Summary of one scrubbing sweep.
#[derive(Debug, Clone)]
pub struct ScrubReport {
    /// Number of active frames inspected.
    pub pages_checked: usize,
    /// Single-bit repairs made during the sweep.
    pub corrections: Vec<CorrectionEvent>,
    /// Frames that had an uncorrectable word, as `(damaged, replacement)`.
    pub relocations: Vec<(usize, usize)>,
}

impl Default for ScrubReport {
    fn default() -> (r: Self)
        ensures
            r.pages_checked == 0,
            r.corrections@.len() == 0,
            r.relocations@.len() == 0,
    {
        ScrubReport { pages_checked: 0, corrections: Vec::new(), relocations: Vec::new() }
    }
}

/// The memory scrubbing engine.
pub struct MemoryScrubber;

/// Indices below `n` of the frames active in `a`, in increasing order.
pub open spec fn active_below(a: MemoryAllocator, n: int) -> Seq<usize>
    decreases n,
{
    if n <= 0 {
        Seq::empty()
    } else if a.is_active(n - 1) {
        active_below(a, n - 1).push((n - 1) as usize)
    } else {
        active_below(a, n - 1)
    }
}

/// No word among the first `n` of frame `f` is uncorrectable.
pub open spec fn readable_upto(f: PhysicalFrame, n: int) -> bool {
    forall|k: int| 0 <= k < n ==> !(#[trigger] decode_spec(f.data[k]) is Uncorrectable)
}

/// Frame `f` holds an uncorrectable word.
pub open spec fn damaged(f: PhysicalFrame) -> bool {
    !readable_upto(f, PAGE_SIZE as int)
}

/// The repairs that reading the first `n` words of frame `f` (numbered
/// `idx`) in order makes: one per word with a single flipped bit, up to the
/// first uncorrectable word, where reading stops.
pub open spec fn frame_corrections(f: PhysicalFrame, idx: usize, n: int) -> Seq<CorrectionEvent>
    decreases n,
{
    if n <= 0 {
        Seq::empty()
    } else {
        let prev = frame_corrections(f, idx, n - 1);
        if readable_upto(f, n - 1) {
            match decode_spec(f.data[n - 1]) {
                DecodeResult::Corrected(_, p) => prev.push(
                    CorrectionEvent { frame_index: idx, offset: (n - 1) as usize, bit_position: p },
                ),
                _ => prev,
            }
        } else {
            prev
        }
    }
}

/// The repairs that scrubbing the frames `s` of `a`, in order, makes.
pub open spec fn sweep_corrections(a: MemoryAllocator, s: Seq<usize>) -> Seq<CorrectionEvent>
    decreases s.len(),
{
    if s.len() == 0 {
        Seq::empty()
    } else {
        sweep_corrections(a, s.drop_last()) + frame_corrections(
            a.frames@[s.last() as int],
            s.last(),
            PAGE_SIZE as int,
        )
    }
}

/// After a sweep, a scrubbed frame with an uncorrectable word is
/// quarantined and released; any other holds only codewords, with its
/// former contents and owner.
pub open spec fn scrubbed(before: MemoryAllocator, after: MemoryAllocator, i: int) -> bool {
    if damaged(before.frames@[i]) {
        after.frames@[i].status == PageStatus::Quarantined && after.allocation_map@[i] is None
    } else {
        frame_clean(after.frames@[i]) && same_contents(after.frames@[i], before.frames@[i])
            && after.allocation_map@[i] == before.allocation_map@[i]
    }
}

/// No frame below `n` is free in `a`.
pub open spec fn none_free_below(a: MemoryAllocator, n: int) -> bool {
    forall|j: int| 0 <= j < n ==> !#[trigger] a.is_free(j)
}

/// Reading stops at the first uncorrectable word: no repair after it.
proof fn lemma_corrections_stop(f: PhysicalFrame, idx: usize, m: int, n: int)
    requires
        0 <= m < n,
        readable_upto(f, m),
        decode_spec(f.data[m]) is Uncorrectable,
    ensures
        frame_corrections(f, idx, n) == frame_corrections(f, idx, m),
    decreases n,
{
    if n > m + 1 {
        lemma_corrections_stop(f, idx, m, n - 1);
        assert(!readable_upto(f, n - 1));
    }
}

/// Frame `n` took over the contents and the owner of the damaged frame `i`.
pub open spec fn relocated(before: MemoryAllocator, after: MemoryAllocator, i: int, n: int) -> bool {
    &&& 0 <= i < TOTAL_PAGES && 0 <= n < TOTAL_PAGES
    &&& before.is_active(i) && before.is_free(n)
    &&& after.allocation_map@[n] == before.allocation_map@[i]
    &&& after.allocation_map@[i] is None
    &&& after.frames@[i].status == PageStatus::Quarantined
    &&& frame_clean(after.frames@[n])
    &&& same_contents(after.frames@[n], before.frames@[i])
}

/// At most `n` frames below `n` are active.
pub proof fn lemma_active_below_len(a: MemoryAllocator, n: int)
    requires
        0 <= n,
    ensures
        active_below(a, n).len() <= n,
    decreases n,
{
    if n > 0 {
        lemma_active_below_len(a, n - 1);
    }
}

proof fn lemma_active_below(a: MemoryAllocator, n: int)
    requires
        0 <= n <= TOTAL_PAGES,
    ensures
        forall|q: int|
            0 <= q < active_below(a, n).len() ==> 0 <= #[trigger] active_below(a, n)[q] < n
                && a.is_active(active_below(a, n)[q] as int),
        forall|q1: int, q2: int|
            0 <= q1 < q2 < active_below(a, n).len() ==> active_below(a, n)[q1] < active_below(
                a,
                n,
            )[q2],
        forall|j: int|
            0 <= j < n && a.is_active(j) ==> exists|q: int|
                0 <= q < active_below(a, n).len() && active_below(a, n)[q] == j,
    decreases n,
{
    if n > 0 {
        lemma_active_below(a, n - 1);
        let s = active_below(a, n - 1);
        if a.is_active(n - 1) {
            assert forall|j: int| 0 <= j < n && a.is_active(j) implies exists|q: int|
                0 <= q < active_below(a, n).len() && active_below(a, n)[q] == j by {
                if j == n - 1 {
                    assert(active_below(a, n)[s.len() as int] == j);
                } else {
                    let q = choose|q: int| 0 <= q < s.len() && s[q] == j;
                    assert(active_below(a, n)[q] == j);
                }
            }
        } else {
            assert(active_below(a, n) == s);
        }
    }
}

/// A codeword holds the byte it encodes and decodes cleanly.
proof fn lemma_codeword(v: u8)
    ensures
        decode_spec(encode_spec(v)) is NoError,
        recovered_byte(encode_spec(v)) == v,
{
    lemma_decode_encode(v);
}

/// Reads every byte of the active frame `idx`, repairing single-bit flips,
/// until an uncorrectable word is met. Returns whether one was met.
fn scrub_frame(
    allocator: &mut MemoryAllocator,
    idx: usize,
    corrections: &mut Vec<CorrectionEvent>,
) -> (faulted: bool)
    requires
        old(allocator).wf(),
        idx < TOTAL_PAGES,
    ensures
        final(allocator).wf(),
        final(allocator).allocation_map@ == old(allocator).allocation_map@,
        forall|j: int|
            0 <= j < TOTAL_PAGES && j != idx ==> #[trigger] final(allocator).frames@[j] == old(
                allocator).frames@[j],
        same_identity(final(allocator).frames@[idx as int], old(allocator).frames@[idx as int]),
        same_contents(final(allocator).frames@[idx as int], old(allocator).frames@[idx as int]),
        !faulted ==> frame_clean(final(allocator).frames@[idx as int]),
        faulted ==> final(allocator).frames@[idx as int].status == PageStatus::Quarantined,
        !faulted && old(allocator).frames@[idx as int].status == PageStatus::Quarantined ==> final(
            allocator).frames@[idx as int].status == PageStatus::Quarantined,
        final(allocator).frames@[idx as int].status != PageStatus::Quarantined ==> old(
            allocator).frames@[idx as int].status != PageStatus::Quarantined,
        final(corrections)@.len() >= old(corrections)@.len(),
        final(corrections)@.len() <= old(corrections)@.len() + PAGE_SIZE,
        forall|q: int| 0 <= q < old(corrections)@.len() ==> #[trigger] final(corrections)@[q] == old(
            corrections)@[q],
        forall|q: int|
            old(corrections)@.len() <= q < final(corrections)@.len() ==> #[trigger] final(
                corrections)@[q].frame_index == idx,
        faulted == damaged(old(allocator).frames@[idx as int]),
        final(corrections)@ == old(corrections)@ + frame_corrections(
            old(allocator).frames@[idx as int],
            idx,
            PAGE_SIZE as int,
        ),
{
    let ghost orig = *allocator;
    let ghost start = *corrections;
    let mut offset: usize = 0;
    while offset < PAGE_SIZE
        invariant
            allocator.wf(),
            idx < TOTAL_PAGES,
            offset <= PAGE_SIZE,
            orig.wf(),
            orig == *old(allocator),
            start == *old(corrections),
            allocator.allocation_map@ == orig.allocation_map@,
            forall|j: int|
                0 <= j < TOTAL_PAGES && j != idx ==> #[trigger] allocator.frames@[j]
                    == orig.frames@[j],
            same_identity(allocator.frames@[idx as int], orig.frames@[idx as int]),
            same_contents(allocator.frames@[idx as int], orig.frames@[idx as int]),
            forall|k: int|
                0 <= k < offset ==> (#[trigger] decode_spec(
                    allocator.frames@[idx as int].data[k],
                )) is NoError,
            orig.frames@[idx as int].status == PageStatus::Quarantined ==> allocator.frames@[idx as int].status
                == PageStatus::Quarantined,
            allocator.frames@[idx as int].status != PageStatus::Quarantined ==> orig.frames@[idx as int].status
                != PageStatus::Quarantined,
            corrections@.len() >= start@.len(),
            corrections@.len() <= start@.len() + offset,
            forall|q: int| 0 <= q < start@.len() ==> #[trigger] corrections@[q] == start@[q],
            forall|q: int|
                start@.len() <= q < corrections@.len() ==> #[trigger] corrections@[q].frame_index
                    == idx,
            readable_upto(orig.frames@[idx as int], offset as int),
            corrections@ == start@ + frame_corrections(orig.frames@[idx as int], idx, offset as int),
            forall|k: int|
                offset <= k < PAGE_SIZE ==> #[trigger] allocator.frames@[idx as int].data[k]
                    == orig.frames@[idx as int].data[k],
        decreases PAGE_SIZE - offset,
    {
        assert(allocator.frames@[idx as int].index == idx);
        let ghost before = allocator.frames@[idx as int];
        let ghost of = orig.frames@[idx as int];
        assert(before.data[offset as int] == of.data[offset as int]);
        let res = allocator.frames[idx].read_byte(offset);
        proof {
            assert forall|k: int| offset < k < PAGE_SIZE implies #[trigger] allocator.frames@[idx as int].data[k]
                == of.data[k] by {
                assert(before.data[k] == of.data[k]);
            }
        }
        match res {
            Ok((_, Some(correction_event))) => {
                proof {
                    let ghost fc = frame_corrections(of, idx, offset as int);
                    assert(frame_corrections(of, idx, offset + 1) == fc.push(correction_event));
                    assert(start@ + fc.push(correction_event) =~= (start@ + fc).push(correction_event));
                }
                proof {
                    let w = before.data[offset as int];
                    if let DecodeResult::Corrected(v, p) = decode_spec(w) {
                        lemma_codeword(v);
                        let after = allocator.frames@[idx as int];
                        assert forall|k: int| 0 <= k < PAGE_SIZE implies #[trigger] recovered_byte(
                            after.data[k],
                        ) == recovered_byte(orig.frames@[idx as int].data[k]) by {
                            assert(recovered_byte(before.data[k]) == recovered_byte(
                                orig.frames@[idx as int].data[k],
                            ));
                            if k != offset {
                                assert(after.data[k] == before.data[k]);
                            }
                        }
                    }
                }
                corrections.push(correction_event);
            },
            Ok((_, None)) => {
                assert(frame_corrections(of, idx, offset + 1) == frame_corrections(of, idx, offset as int));
            },
            Err(_) => {
                proof {
                    lemma_corrections_stop(of, idx, offset as int, PAGE_SIZE as int);
                    assert(!readable_upto(of, PAGE_SIZE as int));
                }
                return true;
            },
        }
        offset = offset + 1;
    }
    false
}

/// What a sweep does: every frame active at its start is scrubbed, each
/// reported relocation moved a quarantined frame to a fresh one, other
/// frames stay as they were, and the report counts the frames checked and
/// the repairs made.
pub open spec fn sweep_outcome(a0: MemoryAllocator, a1: MemoryAllocator, report: ScrubReport) -> bool {
    &&& report.pages_checked == active_below(a0, TOTAL_PAGES as int).len()
    &&& forall|i: int| 0 <= i < TOTAL_PAGES && a0.is_active(i) ==> scrubbed(a0, a1, i)
    &&& forall|r: int|
        0 <= r < report.relocations@.len() ==> relocated(
            a0,
            a1,
            (#[trigger] report.relocations@[r]).0 as int,
            report.relocations@[r].1 as int,
        )
    &&& forall|i: int|
        0 <= i < TOTAL_PAGES && !a0.is_active(i) && (forall|r: int|
            0 <= r < report.relocations@.len() ==> (#[trigger] report.relocations@[r]).1 != i)
            ==> a1.frames@[i] == a0.frames@[i] && a1.allocation_map@[i] == a0.allocation_map@[i]
    &&& forall|q: int|
        0 <= q < report.corrections@.len() ==> a0.is_active(
            (#[trigger] report.corrections@[q]).frame_index as int,
        )
    &&& report.corrections@.len() <= report.pages_checked * PAGE_SIZE
    &&& report.relocations@.len() <= report.pages_checked
    &&& report.corrections@ == sweep_corrections(a0, active_below(a0, TOTAL_PAGES as int))
    &&& forall|r: int|
        0 <= r < report.relocations@.len() ==> damaged(
            a0.frames@[(#[trigger] report.relocations@[r]).0 as int],
        ) && none_free_below(a1, report.relocations@[r].1 as int)
    &&& forall|i: int|
        0 <= i < TOTAL_PAGES && a0.is_active(i) && damaged(#[trigger] a0.frames@[i]) ==> (exists|
            r: int,
        | 0 <= r < report.relocations@.len() && report.relocations@[r].0 == i) || none_free_below(
            a1,
            TOTAL_PAGES as int,
        )
}

impl MemoryScrubber {
    /// Sweeps every frame that is active when the sweep starts: single-bit
    /// flips are repaired in place, and a frame with an uncorrectable word is
    /// quarantined and its salvageable contents moved to a fresh frame.
    pub fn sweep(allocator: &mut MemoryAllocator) -> (report: ScrubReport)
        requires
            old(allocator).wf(),
        ensures
            final(allocator).wf(),
            sweep_outcome(*old(allocator), *final(allocator), report),
    {
        let mut report = ScrubReport::default();
        let mut active_indices: Vec<usize> = Vec::new();
        for idx in 0..TOTAL_PAGES
            invariant
                allocator.wf(),
                active_indices@ == active_below(*allocator, idx as int),
        {
            if allocator.allocation_map[idx].is_some() && allocator.frames[idx].status
                != PageStatus::Quarantined {
                active_indices.push(idx);
            }
        }
        let ghost orig = *old(allocator);
        proof {
            lemma_active_below(orig, TOTAL_PAGES as int);
        }
        let mut p: usize = 0;
        while p < active_indices.len()
            invariant
                allocator.wf(),
                orig.wf(),
                orig == *old(allocator),
                active_indices@ == active_below(orig, TOTAL_PAGES as int),
                forall|q: int|
                    0 <= q < active_indices@.len() ==> 0 <= #[trigger] active_indices@[q]
                        < TOTAL_PAGES && orig.is_active(active_indices@[q] as int),
                forall|q1: int, q2: int|
                    0 <= q1 < q2 < active_indices@.len() ==> active_indices@[q1]
                        < active_indices@[q2],
                p <= active_indices@.len(),
                report.pages_checked == p,
                report.corrections@.len() <= p * PAGE_SIZE,
                report.relocations@.len() <= p,
                forall|q: int|
                    p <= q < active_indices@.len() ==> allocator.frames@[#[trigger] active_indices@[q] as int]
                        == orig.frames@[active_indices@[q] as int]
                        && allocator.allocation_map@[active_indices@[q] as int]
                        == orig.allocation_map@[active_indices@[q] as int],
                forall|j: int| 0 <= j < TOTAL_PAGES && allocator.is_free(j) ==> orig.is_free(j),
                forall|q: int|
                    0 <= q < p ==> scrubbed(orig, *allocator, #[trigger] active_indices@[q] as int),
                forall|q: int|
                    0 <= q < p ==> !allocator.is_free(#[trigger] active_indices@[q] as int),
                forall|r: int|
                    0 <= r < report.relocations@.len() ==> relocated(
                        orig,
                        *allocator,
                        (#[trigger] report.relocations@[r]).0 as int,
                        report.relocations@[r].1 as int,
                    ),
                forall|i: int|
                    0 <= i < TOTAL_PAGES && !orig.is_active(i) && (forall|r: int|
                        0 <= r < report.relocations@.len() ==> (#[trigger] report.relocations@[r]).1
                            != i) ==> allocator.frames@[i] == orig.frames@[i]
                        && allocator.allocation_map@[i] == orig.allocation_map@[i],
                forall|q: int|
                    0 <= q < report.corrections@.len() ==> orig.is_active(
                        (#[trigger] report.corrections@[q]).frame_index as int,
                    ),
                report.corrections@ == sweep_corrections(orig, active_indices@.take(p as int)),
                forall|r: int|
                    0 <= r < report.relocations@.len() ==> damaged(
                        orig.frames@[(#[trigger] report.relocations@[r]).0 as int],
                    ) && none_free_below(*allocator, report.relocations@[r].1 as int),
                forall|q: int|
                    0 <= q < p && damaged(orig.frames@[#[trigger] active_indices@[q] as int]) ==> (exists|
                        r: int,
                    | 0 <= r < report.relocations@.len() && report.relocations@[r].0
                        == active_indices@[q]) || none_free_below(*allocator, TOTAL_PAGES as int),
            decreases active_indices@.len() - p,
        {
            let idx = active_indices[p];
            let ghost a0 = *allocator;
            let ghost rel0 = report.relocations@;
            let ghost cor0 = report.corrections@;
            assert(allocator.frames@[idx as int] == orig.frames@[idx as int]);
            assert(orig.is_active(idx as int));
            if allocator.allocation_map[idx].is_some() && allocator.frames[idx].status
                != PageStatus::Quarantined {
                report.pages_checked += 1;
                let encountered_page_fault = scrub_frame(allocator, idx, &mut report.corrections);
                let ghost a1 = *allocator;
                if encountered_page_fault {
                    match allocator.relocate_and_quarantine(idx) {
                        Ok(new_frame_idx) => {
                            proof {
                                let n = new_frame_idx as int;
                                let a2 = *allocator;
                                assert(a1.is_free(n));
                                assert(a0.is_free(n));
                                assert forall|k: int| 0 <= k < PAGE_SIZE implies (#[trigger] decode_spec(
                                    a2.frames@[n].data[k],
                                )) is NoError && recovered_byte(a2.frames@[n].data[k])
                                    == recovered_byte(orig.frames@[idx as int].data[k]) by {
                                    lemma_codeword(recovered_byte(a1.frames@[idx as int].data[k]));
                                    assert(recovered_byte(a1.frames@[idx as int].data[k])
                                        == recovered_byte(a0.frames@[idx as int].data[k]));
                                }
                                assert(relocated(orig, a2, idx as int, n));
                                assert forall|j: int| 0 <= j < n implies !#[trigger] a2.is_free(j) by {
                                    if j != idx {
                                        assert(!a1.is_free(j));
                                        assert(a2.frames@[j] == a1.frames@[j]);
                                        assert(a2.allocation_map@[j] == a1.allocation_map@[j]);
                                    }
                                }
                                assert(none_free_below(a2, n));
                            }
                            report.relocations.push((idx, new_frame_idx));
                        },
                        Err(_) => {
                            proof {
                                let a2 = *allocator;
                                assert forall|j: int| 0 <= j < TOTAL_PAGES implies !#[trigger] a2.is_free(
                                    j,
                                ) by {
                                    if j != idx {
                                        assert(!a1.is_free(j));
                                        assert(a2.frames@[j] == a1.frames@[j]);
                                        assert(a2.allocation_map@[j] == a1.allocation_map@[j]);
                                    }
                                }
                                assert(none_free_below(a2, TOTAL_PAGES as int));
                            }
                        },
                    }
                }
                proof {
                    let a2 = *allocator;
                    let rel = report.relocations@;
                    assert forall|r: int| 0 <= r < rel0.len() implies relocated(
                        orig,
                        a2,
                        (#[trigger] rel[r]).0 as int,
                        rel[r].1 as int,
                    ) by {
                        assert(rel[r] == rel0[r]);
                        assert(relocated(orig, a0, rel0[r].0 as int, rel0[r].1 as int));
                        let i = rel0[r].0 as int;
                        let m = rel0[r].1 as int;
                        assert(a0.frames@[i].status == PageStatus::Quarantined);
                        assert(a0.allocation_map@[m] is Some);
                        assert(i != idx);
                        assert(m != idx);
                        assert(a1.frames@[i] == a0.frames@[i]);
                        assert(a1.frames@[m] == a0.frames@[m]);
                        assert(!a1.is_free(i));
                        assert(!a1.is_free(m));
                        assert(a2.frames@[i] == a0.frames@[i]);
                        assert(a2.frames@[m] == a0.frames@[m]);
                        assert(a2.allocation_map@[i] == a0.allocation_map@[i]);
                        assert(a2.allocation_map@[m] == a0.allocation_map@[m]);
                    }
                    assert forall|i: int|
                        0 <= i < TOTAL_PAGES && !orig.is_active(i) && (forall|r: int|
                            0 <= r < rel.len() ==> (#[trigger] rel[r]).1 != i) implies a2.frames@[i]
                        == orig.frames@[i] && a2.allocation_map@[i] == orig.allocation_map@[i] by {
                        assert forall|r: int| 0 <= r < rel0.len() implies (#[trigger] rel0[r]).1
                            != i by {
                            assert(rel[r] == rel0[r]);
                        }
                        assert(i != idx);
                        assert(a1.frames@[i] == a0.frames@[i]);
                        if rel.len() > rel0.len() {
                            assert(rel[rel0.len() as int].1 != i);
                        }
                    }
                }
                proof {
                    let a2 = *allocator;
                    let rel = report.relocations@;
                    assert forall|j: int| 0 <= j < TOTAL_PAGES && a2.is_free(j) implies a0.is_free(j) by {
                        if j != idx {
                            assert(a1.frames@[j] == a0.frames@[j]);
                        }
                    }
                    assert(!a2.is_free(idx as int));
                    assert(active_indices@.take(p + 1).drop_last() =~= active_indices@.take(p as int));
                    assert(active_indices@.take(p + 1).last() == idx);
                    assert(report.corrections@ == sweep_corrections(orig, active_indices@.take(p + 1)));
                    assert forall|r: int| 0 <= r < rel.len() implies damaged(
                        orig.frames@[(#[trigger] rel[r]).0 as int],
                    ) && none_free_below(a2, rel[r].1 as int) by {
                        if r < rel0.len() {
                            assert(rel[r] == rel0[r]);
                            assert(none_free_below(a0, rel0[r].1 as int));
                        } else {
                            assert(encountered_page_fault);
                        }
                    }
                    assert forall|q: int|
                        0 <= q < p + 1 && damaged(orig.frames@[#[trigger] active_indices@[q] as int])
                            implies (exists|r: int|
                        0 <= r < rel.len() && rel[r].0 == active_indices@[q]) || none_free_below(
                        a2,
                        TOTAL_PAGES as int,
                    ) by {
                        if q < p {
                            if exists|r: int| 0 <= r < rel0.len() && rel0[r].0 == active_indices@[q] {
                                let r = choose|r: int|
                                    0 <= r < rel0.len() && rel0[r].0 == active_indices@[q];
                                assert(rel[r] == rel0[r]);
                            } else {
                                assert(none_free_below(a0, TOTAL_PAGES as int));
                            }
                        } else {
                            assert(encountered_page_fault);
                            if rel.len() > rel0.len() {
                                assert(rel[rel0.len() as int].0 == active_indices@[q]);
                            } else {
                                assert(none_free_below(a2, TOTAL_PAGES as int));
                            }
                        }
                    }
                }
            }
            p = p + 1;
        }
        proof {
            assert(active_indices@.take(active_indices@.len() as int) =~= active_indices@);
            assert forall|i: int|
                0 <= i < TOTAL_PAGES && orig.is_active(i) && damaged(#[trigger] orig.frames@[i])
                    implies (exists|r: int|
                0 <= r < report.relocations@.len() && report.relocations@[r].0 == i)
                || none_free_below(*allocator, TOTAL_PAGES as int) by {
                let q = choose|q: int|
                    0 <= q < active_below(orig, TOTAL_PAGES as int).len() && active_below(
                        orig,
                        TOTAL_PAGES as int,
                    )[q] == i;
                assert(active_indices@[q] == i);
            }
        }
        report
    }
}

} // verus!
