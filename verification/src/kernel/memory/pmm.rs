//! Physical memory manager: one bit per 4 KB frame.

use vstd::prelude::*;
use x86_64::structures::paging::{PhysFrame, Size4KiB};
use x86_64::PhysAddr;

verus! {

pub const FRAME_SIZE: usize = 4096;

/// Physical addresses have 52 bits.
pub const PHYS_LIMIT: u64 = 0x10_0000_0000_0000;

/// A region of the memory map.
#[derive(Debug, Clone, Copy)]
pub struct MemoryRegion {
    pub base: u64,
    pub length: u64,
    /// Whether the region is free for general use.
    pub usable: bool,
}

/// `PhysFrame::containing_address` of the x86_64 crate, on `PhysAddr::new`: the start
/// of the 4 KB frame that the address lies in. An address of more than 52 bits would
/// panic.
#[verifier::external_body]
fn frame_containing(phys: u64) -> (r: u64)
    requires
        phys < PHYS_LIMIT,
    ensures
        r == phys - phys % 4096,
{
    PhysFrame::<Size4KiB>::containing_address(PhysAddr::new(phys)).start_address().as_u64()
}

// ---------------------------------------------------------------------------
// Bits
// ---------------------------------------------------------------------------

/// Bit `k` of a word is set.
pub open spec fn bit_set(w: u64, k: u64) -> bool {
    (w >> k) & 1 != 0
}

proof fn lemma_set_bit(w: u64, k: u64, j: u64)
    requires
        k < 64,
        j < 64,
    ensures
        bit_set(w | (1u64 << k), j) == (j == k || bit_set(w, j)),
{
    assert(((w | (1u64 << k)) >> j) & 1 != 0 <==> (j == k || (w >> j) & 1 != 0)) by (bit_vector)
        requires
            k < 64,
            j < 64,
    ;
}

proof fn lemma_clear_bit(w: u64, k: u64, j: u64)
    requires
        k < 64,
        j < 64,
    ensures
        bit_set(w & !(1u64 << k), j) == (j != k && bit_set(w, j)),
{
    assert(((w & !(1u64 << k)) >> j) & 1 != 0 <==> (j != k && (w >> j) & 1 != 0)) by (bit_vector)
        requires
            k < 64,
            j < 64,
    ;
}

proof fn lemma_full_word(j: u64)
    requires
        j < 64,
    ensures
        bit_set(u64::MAX, j),
{
    assert((0xffff_ffff_ffff_ffffu64 >> j) & 1 != 0) by (bit_vector)
        requires
            j < 64,
    ;
}

/// Frame `i` is marked as used.
pub open spec fn frame_used(bitmap: Seq<u64>, i: int) -> bool {
    bit_set(bitmap[i / 64], (i % 64) as u64)
}

/// The marks of the first `n` frames.
pub open spec fn marks(bitmap: Seq<u64>, n: nat) -> Seq<bool> {
    Seq::new(n, |i: int| frame_used(bitmap, i))
}

// ---------------------------------------------------------------------------
// Model
// ---------------------------------------------------------------------------

/// How many frames are free.
pub open spec fn count_free(used: Seq<bool>) -> nat
    decreases used.len(),
{
    if used.len() == 0 {
        0
    } else {
        count_free(used.drop_last()) + if used.last() {
            0nat
        } else {
            1nat
        }
    }
}

/// Marking one frame moves the count by one, where it changes anything.
pub proof fn lemma_count_update(used: Seq<bool>, i: int, mark: bool)
    requires
        0 <= i < used.len(),
    ensures
        count_free(used.update(i, mark)) as int == count_free(used) + (if used[i] == mark {
            0int
        } else if mark {
            -1int
        } else {
            1int
        }),
    decreases used.len(),
{
    let t = used.update(i, mark);
    if i == used.len() - 1 {
        assert(t.drop_last() =~= used.drop_last());
    } else {
        lemma_count_update(used.drop_last(), i, mark);
        assert(t.drop_last() =~= used.drop_last().update(i, mark));
    }
}

/// There are no more free frames than frames.
pub proof fn lemma_count_bound(used: Seq<bool>)
    ensures
        count_free(used) <= used.len(),
        (exists|i: int| 0 <= i < used.len() && !#[trigger] used[i]) ==> count_free(used) > 0,
    decreases used.len(),
{
    if used.len() > 0 {
        lemma_count_bound(used.drop_last());
        if exists|i: int| 0 <= i < used.len() && !#[trigger] used[i] {
            let i = choose|i: int| 0 <= i < used.len() && !#[trigger] used[i];
            if i < used.len() - 1 {
                assert(!used.drop_last()[i]);
            }
        }
    }
}

/// What the manager holds: the marks of all frames, the count of free frames that it
/// keeps, the frame where the next search begins, and the offset of the direct map of
/// physical memory.
pub struct PmmView {
    pub used: Seq<bool>,
    pub free: nat,
    pub hint: nat,
    pub offset: u64,
}

impl PmmView {
    /// The count covers all free frames, and has room for all others.
    pub open spec fn wf(self) -> bool {
        &&& self.used.len() * FRAME_SIZE <= PHYS_LIMIT
        &&& self.hint < self.used.len() || self.hint == 0
        &&& count_free(self.used) <= self.free
        &&& self.free + (self.used.len() - count_free(self.used)) <= usize::MAX
    }

    /// The count is exact.
    pub open spec fn exact(self) -> bool {
        self.free == count_free(self.used)
    }
}

/// The first free frame at or behind the `i`-th one in cyclic order from `start`.
pub open spec fn next_free(used: Seq<bool>, start: int, i: int) -> Option<int>
    decreases used.len() - i,
{
    if i < 0 || i >= used.len() {
        None
    } else if !used[(start + i) % (used.len() as int)] {
        Some((start + i) % (used.len() as int))
    } else {
        next_free(used, start, i + 1)
    }
}

/// The `count` frames from `s` on are free.
pub open spec fn free_run(used: Seq<bool>, s: int, count: int) -> bool {
    &&& 0 <= s
    &&& s + count <= used.len()
    &&& forall|i: int| s <= i < s + count ==> !#[trigger] used[i]
}

/// The marks after the `count` frames from `s` on have been marked.
pub open spec fn mark_run(used: Seq<bool>, s: int, count: int, mark: bool) -> Seq<bool> {
    Seq::new(
        used.len(),
        |i: int|
            if s <= i < s + count {
                mark
            } else {
                used[i]
            },
    )
}

/// First frame of a region.
pub open spec fn first_frame(r: MemoryRegion) -> int {
    r.base as int / 4096
}

/// Frame behind the last frame of a region.
pub open spec fn end_frame(r: MemoryRegion) -> int {
    (r.base + r.length) / 4096
}

/// The end of the highest region.
pub open spec fn highest_end(regions: Seq<MemoryRegion>) -> int
    decreases regions.len(),
{
    if regions.len() == 0 {
        0
    } else {
        let rest = highest_end(regions.drop_last());
        let end = regions.last().base + regions.last().length;
        if end > rest {
            end
        } else {
            rest
        }
    }
}

/// How many frames there are below the end of the highest region.
pub open spec fn frames_below(highest: int) -> int {
    (highest + 4095) / 4096
}

/// How many frames a bitmap for so many frames takes.
pub open spec fn bitmap_frames(total: int) -> int {
    ((total + 7) / 8 + 4095) / 4096
}

/// The first usable region that can hold the bitmap.
pub open spec fn bitmap_home(regions: Seq<MemoryRegion>, frames: int) -> Option<int>
    decreases regions.len(),
{
    if regions.len() == 0 {
        None
    } else if regions[0].usable && regions[0].length >= frames * 4096 {
        Some(0)
    } else {
        match bitmap_home(regions.skip(1), frames) {
            Some(i) => Some(i + 1),
            None => None,
        }
    }
}

/// A frame lies in a usable region.
pub open spec fn is_usable(regions: Seq<MemoryRegion>, frame: int) -> bool {
    exists|i: int|
        0 <= i < regions.len() && (#[trigger] regions[i]).usable && first_frame(regions[i]) <= frame < end_frame(
            regions[i],
        )
}

/// The frames of all usable regions, counted region by region.
pub open spec fn usable_frames(regions: Seq<MemoryRegion>) -> int
    decreases regions.len(),
{
    if regions.len() == 0 {
        0
    } else {
        usable_frames(regions.drop_last()) + if regions.last().usable {
            end_frame(regions.last()) - first_frame(regions.last())
        } else {
            0
        }
    }
}

/// No frame lies in two usable regions.
pub open spec fn regions_disjoint(regions: Seq<MemoryRegion>) -> bool {
    forall|i: int, j: int|
        0 <= i < j < regions.len() && (#[trigger] regions[i]).usable && (#[trigger] regions[j]).usable ==> end_frame(
            regions[i],
        ) <= first_frame(regions[j]) || end_frame(regions[j]) <= first_frame(regions[i])
}

/// Every region ends within the physical address space.
pub open spec fn regions_in_range(regions: Seq<MemoryRegion>) -> bool {
    forall|i: int| 0 <= i < regions.len() ==> (#[trigger] regions[i]).base + regions[i].length <= PHYS_LIMIT
}

proof fn lemma_highest(regions: Seq<MemoryRegion>)
    requires
        regions_in_range(regions),
    ensures
        0 <= highest_end(regions) <= PHYS_LIMIT,
        forall|i: int|
            0 <= i < regions.len() ==> (#[trigger] regions[i]).base + regions[i].length <= highest_end(regions),
    decreases regions.len(),
{
    if regions.len() > 0 {
        let d = regions.drop_last();
        assert(regions_in_range(d)) by {
            assert forall|i: int| 0 <= i < d.len() implies (#[trigger] d[i]).base + d[i].length <= PHYS_LIMIT by {
                assert(d[i] == regions[i]);
            }
        }
        lemma_highest(d);
        assert(regions[regions.len() - 1].base + regions[regions.len() - 1].length <= PHYS_LIMIT);
        assert forall|i: int| 0 <= i < regions.len() implies (#[trigger] regions[i]).base + regions[i].length
            <= highest_end(regions) by {
            if i < d.len() {
                assert(d[i] == regions[i]);
            }
        }
    }
}

pub struct PhysicalMemoryManager {
    /// One bit per frame: 0 = free, 1 = used.
    bitmap: Vec<u64>,
    total_frames: usize,
    free_frames: usize,
    /// Where the next search begins.
    next_free_hint: usize,
    hhdm_offset: u64,
}

impl View for PhysicalMemoryManager {
    type V = PmmView;

    closed spec fn view(&self) -> PmmView {
        PmmView {
            used: marks(self.bitmap@, self.total_frames as nat),
            free: self.free_frames as nat,
            hint: self.next_free_hint as nat,
            offset: self.hhdm_offset,
        }
    }
}

impl PhysicalMemoryManager {
    /// The manager's invariant.
    pub closed spec fn wf(&self) -> bool {
        &&& self@.wf()
        &&& self.bitmap@.len() * 64 >= self.total_frames
    }

    /// An invariant manager's model is well formed.
    pub proof fn lemma_wf(&self)
        requires
            self.wf(),
        ensures
            self@.wf(),
    {
    }

    /// Build the manager from the memory map: frames of usable regions are free, all
    /// others are used, and so are the frames that hold the bitmap, which stands at the
    /// start of the first usable region that can hold it.
    pub fn new(regions: &[MemoryRegion], hhdm_offset: u64) -> (r: Self)
        requires
            regions_in_range(regions@),
            bitmap_home(regions@, bitmap_frames(frames_below(highest_end(regions@)))) is Some,
            usable_frames(regions@) + frames_below(highest_end(regions@)) <= usize::MAX,
        ensures
            r.wf(),
            r@.offset == hhdm_offset,
            r@.hint == 0,
            ({
                let total = frames_below(highest_end(regions@));
                let taken = bitmap_frames(total);
                let home = first_frame(regions@[bitmap_home(regions@, taken)->0]);
                &&& r@.used == Seq::new(
                    total as nat,
                    |i: int| !is_usable(regions@, i) || home <= i < home + taken,
                )
                &&& r@.free == usable_frames(regions@) - taken
            }),
            regions_disjoint(regions@) ==> r@.exact(),
    {
        proof {
            lemma_highest(regions@);
            lemma_usable_monotone(regions@, regions@.len() as int);
        }
        let mut highest: u64 = 0;
        let mut i: usize = 0;
        assert(regions@.take(0) =~= Seq::empty());
        while i < regions.len()
            invariant
                i <= regions@.len(),
                regions_in_range(regions@),
                highest == highest_end(regions@.take(i as int)),
            decreases regions@.len() - i,
        {
            assert(regions@[i as int].base + regions@[i as int].length <= PHYS_LIMIT);
            assert(regions@.take(i + 1).drop_last() =~= regions@.take(i as int));
            let end = regions[i].base + regions[i].length;
            if end > highest {
                highest = end;
            }
            i += 1;
        }
        assert(regions@.take(regions@.len() as int) =~= regions@);
        let total_frames = ((highest + 4095) / 4096) as usize;
        let bitmap_bytes = (total_frames as u64 + 7) / 8;
        let taken = ((bitmap_bytes + 4095) / 4096) as usize;
        let home = Self::find_home(regions, taken);
        let home_base = regions[home].base;

        let words = (total_frames as u64 + 63) / 64;
        let mut bitmap: Vec<u64> = Vec::new();
        let mut w: u64 = 0;
        while w < words
            invariant
                w <= words,
                bitmap@.len() == w,
                forall|k: int| 0 <= k < w ==> bitmap@[k] == u64::MAX,
            decreases words - w,
        {
            bitmap.push(u64::MAX);
            w += 1;
        }
        let mut pmm = PhysicalMemoryManager { bitmap, total_frames, free_frames: 0, next_free_hint: 0, hhdm_offset };
        proof {
            assert forall|k: int| 0 <= k < total_frames implies #[trigger] pmm@.used[k] by {
                lemma_full_word((k % 64) as u64);
            }
            lemma_all_used(pmm@.used);
        }

        let mut n: usize = 0;
        while n < regions.len()
            invariant
                n <= regions@.len(),
                total_frames == frames_below(highest_end(regions@)),
                highest_end(regions@) <= PHYS_LIMIT,
                forall|k: int|
                    0 <= k < regions@.len() ==> (#[trigger] regions@[k]).base + regions@[k].length <= highest_end(
                        regions@,
                    ),
                usable_frames(regions@) + total_frames <= usize::MAX,
                pmm.total_frames == total_frames,
                pmm.next_free_hint == 0,
                pmm.hhdm_offset == hhdm_offset,
                pmm.bitmap@.len() * 64 >= total_frames,
                pmm@.used.len() == total_frames,
                pmm@.free == usable_frames(regions@.take(n as int)),
                count_free(pmm@.used) <= pmm@.free,
                regions_disjoint(regions@) ==> pmm@.free == count_free(pmm@.used),
                forall|k: int| 0 <= k < total_frames ==> #[trigger] pmm@.used[k] == !is_usable(regions@.take(n as int), k),
            decreases regions@.len() - n,
        {
            let ghost sofar = regions@.take(n as int);
            let ghost next = regions@.take(n + 1);
            assert(next.drop_last() =~= sofar);
            let ghost reg = regions@[n as int];
            proof {
                lemma_usable_monotone(regions@, n + 1);
                lemma_usable_step(regions@, n as int);
            }
            if regions[n].usable {
                let start = (regions[n].base / 4096) as usize;
                let end = ((regions[n].base + regions[n].length) / 4096) as usize;
                let ghost used0 = pmm@.used;
                let mut frame: usize = start;
                while frame < end
                    invariant
                        start <= frame <= end,
                        end <= total_frames,
                        reg == regions@[n as int],
                        reg.usable,
                        n < regions@.len(),
                        start == first_frame(reg),
                        end == end_frame(reg),
                        sofar == regions@.take(n as int),
                        usable_frames(sofar) + (end - start) <= usize::MAX,
                        pmm.total_frames == total_frames,
                        pmm.next_free_hint == 0,
                        pmm.hhdm_offset == hhdm_offset,
                        pmm.bitmap@.len() * 64 >= total_frames,
                        pmm@.used.len() == total_frames,
                        used0.len() == total_frames,
                        forall|k: int| 0 <= k < total_frames ==> #[trigger] used0[k] == !is_usable(sofar, k),
                        pmm@.free == usable_frames(sofar) + (frame - start),
                        count_free(pmm@.used) <= pmm@.free,
                        regions_disjoint(regions@) ==> pmm@.free == count_free(pmm@.used),
                        pmm@.used == mark_run(used0, start as int, frame - start, false),
                    decreases end - frame,
                {
                    let ghost before = pmm@.used;
                    proof {
                        lemma_count_update(before, frame as int, false);
                        if regions_disjoint(regions@) {
                            lemma_not_yet_usable(regions@, n as int, frame as int);
                            assert(used0[frame as int]);
                        }
                    }
                    pmm.set_free(frame);
                    pmm.free_frames += 1;
                    frame += 1;
                    assert(pmm@.used =~= mark_run(used0, start as int, frame - start, false));
                }
                assert forall|k: int| 0 <= k < total_frames implies #[trigger] pmm@.used[k] == !is_usable(next, k) by {
                    assert(used0[k] == !is_usable(sofar, k));
                    lemma_usable_next(regions@, n as int, k);
                }
            } else {
                assert forall|k: int| 0 <= k < total_frames implies #[trigger] pmm@.used[k] == !is_usable(next, k) by {
                    lemma_usable_next(regions@, n as int, k);
                }
            }
            n += 1;
        }
        assert(regions@.take(regions@.len() as int) =~= regions@);

        let bitmap_start = (home_base / 4096) as usize;
        let ghost used1 = pmm@.used;
        proof {
            assert(regions@[home as int].base + regions@[home as int].length <= highest_end(regions@));
            assert(bitmap_start + taken <= end_frame(regions@[home as int]));
        }
        let mut i: usize = bitmap_start;
        while i < bitmap_start + taken
            invariant
                bitmap_start == first_frame(regions@[home as int]),
                home < regions@.len(),
                regions@[home as int].usable,
                bitmap_start + taken <= end_frame(regions@[home as int]),
                end_frame(regions@[home as int]) <= total_frames,
                total_frames <= PHYS_LIMIT,
                bitmap_start <= i <= bitmap_start + taken,
                pmm.total_frames == total_frames,
                pmm.next_free_hint == 0,
                pmm.hhdm_offset == hhdm_offset,
                pmm.bitmap@.len() * 64 >= total_frames,
                pmm@.used.len() == total_frames,
                used1.len() == total_frames,
                forall|k: int| 0 <= k < total_frames ==> #[trigger] used1[k] == !is_usable(regions@, k),
                pmm@.free == usable_frames(regions@) - (i - bitmap_start),
                count_free(pmm@.used) <= pmm@.free,
                regions_disjoint(regions@) ==> pmm@.free == count_free(pmm@.used),
                pmm@.used == mark_run(used1, bitmap_start as int, i - bitmap_start, true),
            decreases bitmap_start + taken - i,
        {
            let ghost before = pmm@.used;
            proof {
                assert(is_usable(regions@, i as int)) by {
                    assert(regions@[home as int].usable && first_frame(regions@[home as int]) <= i < end_frame(
                        regions@[home as int],
                    ));
                }
                assert(!used1[i as int]);
                lemma_count_update(before, i as int, true);
            }
            pmm.set_used(i);
            pmm.free_frames -= 1;
            i += 1;
            assert(pmm@.used =~= mark_run(used1, bitmap_start as int, i - bitmap_start, true));
        }
        proof {
            lemma_count_bound(pmm@.used);
            assert(pmm@.used =~= Seq::new(
                total_frames as nat,
                |i: int| !is_usable(regions@, i) || bitmap_start <= i < bitmap_start + taken,
            ));
        }
        pmm
    }

    /// The first usable region that can hold so many frames.
    fn find_home(regions: &[MemoryRegion], frames: usize) -> (r: usize)
        requires
            bitmap_home(regions@, frames as int) is Some,
            frames <= 0x1000_0000,
        ensures
            bitmap_home(regions@, frames as int) == Some(r as int),
            r < regions@.len(),
            regions@[r as int].usable,
            regions@[r as int].length >= frames * 4096,
    {
        let mut i: usize = 0;
        assert(regions@.skip(0) =~= regions@);
        while i < regions.len()
            invariant
                i <= regions@.len(),
                frames <= 0x1000_0000,
                bitmap_home(regions@.skip(i as int), frames as int) is Some,
                bitmap_home(regions@, frames as int) == Some(
                    i + bitmap_home(regions@.skip(i as int), frames as int)->0,
                ),
            decreases regions@.len() - i,
        {
            assert(regions@.skip(i as int)[0] == regions@[i as int]);
            assert(regions@.skip(i as int).skip(1) =~= regions@.skip(i + 1));
            if regions[i].usable && regions[i].length >= frames as u64 * 4096 {
                return i;
            }
            i += 1;
        }
        assert(regions@.skip(i as int).len() == 0);
        0
    }

    /// Number of free frames.
    pub fn free_frames(&self) -> (r: usize)
        ensures
            r == self@.free,
    {
        self.free_frames
    }

    /// Allocate one frame. Returns its physical address; none where all are used.
    pub fn allocate_frame(&mut self) -> (r: Option<u64>)
        requires
            old(self).wf(),
        ensures
            final(self).wf(),
            match next_free(old(self)@.used, old(self)@.hint as int, 0) {
                Some(idx) => {
                    &&& r == Some((idx * 4096) as u64)
                    &&& old(self)@.free >= 1
                    &&& 0 <= idx < old(self)@.used.len()
                    &&& final(self)@ == PmmView {
                        used: old(self)@.used.update(idx, true),
                        free: (old(self)@.free - 1) as nat,
                        hint: ((idx + 1) % (old(self)@.used.len() as int)) as nat,
                        ..old(self)@
                    }
                },
                None => r is None && final(self)@ == old(self)@,
            },
            old(self)@.exact() ==> final(self)@.exact(),
    {
        let start = self.next_free_hint;
        let total = self.total_frames;
        let mut i: usize = 0;
        while i < total
            invariant
                *self == *old(self),
                self.wf(),
                total == self.total_frames,
                start == self.next_free_hint,
                i <= total,
                next_free(self@.used, start as int, 0) == next_free(self@.used, start as int, i as int),
            decreases total - i,
        {
            assert(self@.used.len() == total);
            let idx = ((start as u64 + i as u64) % total as u64) as usize;
            if self.is_free(idx) {
                proof {
                    assert(!self@.used[idx as int]);
                    lemma_count_update(self@.used, idx as int, true);
                    lemma_count_bound(self@.used);
                }
                self.set_used(idx);
                self.free_frames -= 1;
                self.next_free_hint = ((idx as u64 + 1) % total as u64) as usize;
                return Some(frame_containing(idx as u64 * 4096));
            }
            i += 1;
        }
        None
    }

    /// Allocate `count` physically contiguous frames: the lowest free run of that
    /// length. Returns the physical address of the first frame, or none if there is no
    /// such run or none was asked for.
    pub fn allocate_contiguous(&mut self, count: usize) -> (r: Option<u64>)
        requires
            old(self).wf(),
        ensures
            final(self).wf(),
            match r {
                Some(phys) => {
                    let s = phys as int / 4096;
                    &&& phys % 4096 == 0
                    &&& count > 0
                    &&& free_run(old(self)@.used, s, count as int)
                    &&& forall|t: int| 0 <= t < s ==> !free_run(old(self)@.used, t, count as int)
                    &&& final(self)@ == PmmView {
                        used: mark_run(old(self)@.used, s, count as int, true),
                        free: (old(self)@.free - count) as nat,
                        ..old(self)@
                    }
                },
                None => {
                    &&& final(self)@ == old(self)@
                    &&& count == 0 || forall|t: int| 0 <= t ==> !free_run(old(self)@.used, t, count as int)
                },
            },
            old(self)@.exact() ==> final(self)@.exact(),
    {
        if count == 0 {
            return None;
        }
        let total = self.total_frames;
        let ghost used0 = self@.used;
        let mut run_start: usize = 0;
        let mut run_len: usize = 0;
        let mut idx: usize = 0;
        while idx < total
            invariant
                *self == *old(self),
                self.wf(),
                used0 == self@.used,
                total == self.total_frames,
                used0.len() == total,
                idx <= total,
                run_len < count,
                run_len <= idx,
                run_len > 0 ==> run_start + run_len == idx,
                forall|k: int| idx - run_len <= k < idx ==> !#[trigger] used0[k],
                run_len < idx ==> used0[idx - run_len - 1],
                forall|t: int| 0 <= t && t + count <= idx ==> !free_run(used0, t, count as int),
            decreases total - idx,
        {
            if self.is_free(idx) {
                if run_len == 0 {
                    run_start = idx;
                }
                run_len += 1;
                if run_len == count {
                    proof {
                        assert(free_run(used0, run_start as int, count as int));
                    }
                    self.take_run(run_start, count);
                    assert forall|t: int| 0 <= t < run_start implies !free_run(used0, t, count as int) by {
                        if t + count > idx {
                            assert(used0[run_start - 1]);
                        }
                    }
                    assert(run_start * 4096 <= PHYS_LIMIT);
                    return Some(run_start as u64 * 4096);
                }
                idx += 1;
                assert forall|t: int| 0 <= t && t + count <= idx implies !free_run(used0, t, count as int) by {
                    if t + count == idx {
                        assert(used0[idx - run_len - 1]);
                    }
                }
            } else {
                run_len = 0;
                idx += 1;
                assert forall|t: int| 0 <= t && t + count <= idx implies !free_run(used0, t, count as int) by {
                    if t + count == idx {
                        assert(used0[idx - 1]);
                    }
                }
            }
        }
        None
    }

    /// Mark a free run as used.
    fn take_run(&mut self, start: usize, count: usize)
        requires
            old(self).wf(),
            free_run(old(self)@.used, start as int, count as int),
        ensures
            final(self).wf(),
            final(self)@ == (PmmView {
                used: mark_run(old(self)@.used, start as int, count as int, true),
                free: (old(self)@.free - count) as nat,
                ..old(self)@
            }),
            old(self)@.free >= count,
            old(self)@.exact() ==> final(self)@.exact(),
    {
        let ghost used0 = self@.used;
        let ghost free0 = self@.free;
        let mut i: usize = start;
        assert(self@.used =~= mark_run(used0, start as int, 0, true));
        assert(start + count <= self.total_frames);
        while i < start + count
            invariant
                used0 == old(self)@.used,
                free0 == old(self)@.free,
                start <= i <= start + count,
                start + count <= self.total_frames,
                free_run(used0, start as int, count as int),
                self.wf(),
                self.hhdm_offset == old(self).hhdm_offset,
                self@.hint == old(self)@.hint,
                self@.used == mark_run(used0, start as int, i - start, true),
                self@.free == free0 - (i - start),
                self@.free - count_free(self@.used) == free0 - count_free(used0),
            decreases start + count - i,
        {
            let ghost before = self@.used;
            proof {
                assert(!used0[i as int]);
                assert(!before[i as int]);
                lemma_count_update(before, i as int, true);
                lemma_count_bound(before);
            }
            self.set_used(i);
            self.free_frames -= 1;
            i += 1;
            assert(self@.used =~= mark_run(used0, start as int, i - start, true));
        }
    }

    /// Free a frame, given by an address in it. The frame must exist and be in use.
    pub fn free_frame(&mut self, phys: u64)
        requires
            old(self).wf(),
            phys as int / 4096 < old(self)@.used.len(),
            old(self)@.used[phys as int / 4096],
        ensures
            final(self).wf(),
            final(self)@ == (PmmView {
                used: old(self)@.used.update(phys as int / 4096, false),
                free: old(self)@.free + 1,
                ..old(self)@
            }),
            old(self)@.exact() ==> final(self)@.exact(),
    {
        assert(phys < PHYS_LIMIT);
        let idx = (frame_containing(phys) / 4096) as usize;
        assert(idx == phys as int / 4096);
        proof {
            lemma_count_update(self@.used, idx as int, false);
            lemma_count_bound(self@.used);
            lemma_count_bound(self@.used.update(idx as int, false));
        }
        self.set_free(idx);
        self.free_frames += 1;
    }

    fn is_free(&self, idx: usize) -> (r: bool)
        requires
            idx < self.total_frames,
            self.bitmap@.len() * 64 >= self.total_frames,
        ensures
            r == !self@.used[idx as int],
    {
        (self.bitmap[idx / 64] >> (idx % 64)) & 1 == 0
    }

    fn set_free(&mut self, idx: usize)
        requires
            idx < old(self).total_frames,
            old(self).bitmap@.len() * 64 >= old(self).total_frames,
        ensures
            final(self).total_frames == old(self).total_frames,
            final(self).free_frames == old(self).free_frames,
            final(self).next_free_hint == old(self).next_free_hint,
            final(self).hhdm_offset == old(self).hhdm_offset,
            final(self).bitmap@.len() == old(self).bitmap@.len(),
            final(self)@.used == old(self)@.used.update(idx as int, false),
    {
        let w = self.bitmap[idx / 64];
        self.bitmap[idx / 64] = w & !(1u64 << (idx % 64));
        proof {
            assert forall|k: int| 0 <= k < self.total_frames implies #[trigger] self@.used[k] == old(self)@.used.update(
                idx as int,
                false,
            )[k] by {
                lemma_clear_bit(w, (idx % 64) as u64, (k % 64) as u64);
            }
            assert(self@.used =~= old(self)@.used.update(idx as int, false));
        }
    }

    fn set_used(&mut self, idx: usize)
        requires
            idx < old(self).total_frames,
            old(self).bitmap@.len() * 64 >= old(self).total_frames,
        ensures
            final(self).total_frames == old(self).total_frames,
            final(self).free_frames == old(self).free_frames,
            final(self).next_free_hint == old(self).next_free_hint,
            final(self).hhdm_offset == old(self).hhdm_offset,
            final(self).bitmap@.len() == old(self).bitmap@.len(),
            final(self)@.used == old(self)@.used.update(idx as int, true),
    {
        let w = self.bitmap[idx / 64];
        self.bitmap[idx / 64] = w | (1u64 << (idx % 64));
        proof {
            assert forall|k: int| 0 <= k < self.total_frames implies #[trigger] self@.used[k] == old(self)@.used.update(
                idx as int,
                true,
            )[k] by {
                lemma_set_bit(w, (idx % 64) as u64, (k % 64) as u64);
            }
            assert(self@.used =~= old(self)@.used.update(idx as int, true));
        }
    }
}

proof fn lemma_all_used(used: Seq<bool>)
    requires
        forall|i: int| 0 <= i < used.len() ==> #[trigger] used[i],
    ensures
        count_free(used) == 0,
    decreases used.len(),
{
    if used.len() > 0 {
        assert forall|i: int| 0 <= i < used.drop_last().len() implies #[trigger] used.drop_last()[i] by {
            assert(used[i]);
        }
        lemma_all_used(used.drop_last());
        assert(used[used.len() - 1]);
    }
}

proof fn lemma_usable_monotone(regions: Seq<MemoryRegion>, n: int)
    requires
        0 <= n <= regions.len(),
    ensures
        0 <= usable_frames(regions.take(n)) <= usable_frames(regions),
    decreases regions.len() + (regions.len() - n),
{
    if n == regions.len() {
        assert(regions.take(n) =~= regions);
        if n > 0 {
            lemma_usable_monotone(regions.drop_last(), n - 1);
            assert(regions.drop_last().take(n - 1) =~= regions.drop_last());
        }
    } else {
        lemma_usable_monotone(regions, n + 1);
        assert(regions.take(n + 1).drop_last() =~= regions.take(n));
        lemma_usable_monotone(regions.take(n), n);
        assert(regions.take(n).take(n) =~= regions.take(n));
    }
}

proof fn lemma_usable_step(regions: Seq<MemoryRegion>, n: int)
    requires
        0 <= n < regions.len(),
    ensures
        usable_frames(regions.take(n + 1)) == usable_frames(regions.take(n)) + if regions[n].usable {
            end_frame(regions[n]) - first_frame(regions[n])
        } else {
            0
        },
{
    assert(regions.take(n + 1).drop_last() =~= regions.take(n));
}

proof fn lemma_usable_next(regions: Seq<MemoryRegion>, n: int, k: int)
    requires
        0 <= n < regions.len(),
    ensures
        is_usable(regions.take(n + 1), k) == (is_usable(regions.take(n), k) || (regions[n].usable && first_frame(
            regions[n],
        ) <= k < end_frame(regions[n]))),
{
    let a = regions.take(n);
    let b = regions.take(n + 1);
    if is_usable(a, k) {
        let i = choose|i: int|
            0 <= i < a.len() && (#[trigger] a[i]).usable && first_frame(a[i]) <= k < end_frame(a[i]);
        assert(b[i] == a[i]);
    }
    if regions[n].usable && first_frame(regions[n]) <= k < end_frame(regions[n]) {
        assert(b[n] == regions[n]);
    }
    if is_usable(b, k) {
        let i = choose|i: int|
            0 <= i < b.len() && (#[trigger] b[i]).usable && first_frame(b[i]) <= k < end_frame(b[i]);
        if i < n {
            assert(a[i] == b[i]);
        }
    }
}

proof fn lemma_not_yet_usable(regions: Seq<MemoryRegion>, n: int, k: int)
    requires
        0 <= n < regions.len(),
        regions_disjoint(regions),
        regions[n].usable,
        first_frame(regions[n]) <= k < end_frame(regions[n]),
    ensures
        !is_usable(regions.take(n), k),
{
    let a = regions.take(n);
    if is_usable(a, k) {
        let i = choose|i: int|
            0 <= i < a.len() && (#[trigger] a[i]).usable && first_frame(a[i]) <= k < end_frame(a[i]);
        assert(a[i] == regions[i]);
        assert(regions[i].usable && regions[n].usable);
    }
}

/// The search finds a free frame exactly where there is one.
pub proof fn law_allocation_finds_free(used: Seq<bool>, start: int, frame: int)
    requires
        0 <= start < used.len(),
        0 <= frame < used.len(),
        !used[frame],
    ensures
        next_free(used, start, 0) is Some,
        0 <= next_free(used, start, 0)->0 < used.len(),
        !used[next_free(used, start, 0)->0],
{
    let n = used.len() as int;
    let i = if frame >= start { frame - start } else { frame - start + n };
    assert((start + i) % n == frame) by (nonlinear_arith)
        requires
            0 <= frame < n,
            0 <= start < n,
            i == if frame >= start { frame - start } else { frame - start + n },
    ;
    lemma_next_free(used, start, 0, i);
}

proof fn lemma_next_free(used: Seq<bool>, start: int, i: int, j: int)
    requires
        0 <= start < used.len(),
        0 <= i <= j < used.len(),
        !used[(start + j) % (used.len() as int)],
    ensures
        next_free(used, start, i) is Some,
        0 <= next_free(used, start, i)->0 < used.len(),
        !used[next_free(used, start, i)->0],
    decreases j - i,
{
    let n = used.len() as int;
    assert(0 <= (start + i) % n < n) by (nonlinear_arith)
        requires
            n > 0,
    ;
    if used[(start + i) % n] {
        lemma_next_free(used, start, i + 1, j);
    }
}

/// A frame that is handed out was free, and is handed out by no later search before it
/// is freed.
pub proof fn law_no_frame_twice(used: Seq<bool>, start: int, later: int)
    requires
        0 <= start < used.len(),
        0 <= later < used.len(),
        next_free(used, start, 0) is Some,
    ensures
        ({
            let idx = next_free(used, start, 0)->0;
            &&& 0 <= idx < used.len()
            &&& !used[idx]
            &&& next_free(used.update(idx, true), later, 0) != Some(idx)
        }),
{
    lemma_found_is_free(used, start, 0);
    let idx = next_free(used, start, 0)->0;
    let t = used.update(idx, true);
    if next_free(t, later, 0) is Some {
        lemma_found_is_free(t, later, 0);
    }
}

proof fn lemma_found_is_free(used: Seq<bool>, start: int, i: int)
    requires
        0 <= i,
        used.len() > 0,
        next_free(used, start, i) is Some,
    ensures
        0 <= next_free(used, start, i)->0 < used.len(),
        !used[next_free(used, start, i)->0],
    decreases used.len() - i,
{
    let n = used.len() as int;
    assert(0 <= (start + i) % n < n) by (nonlinear_arith)
        requires
            n > 0,
    ;
    if used[(start + i) % n] {
        lemma_found_is_free(used, start, i + 1);
    }
}

/// Freeing a frame undoes its allocation: the marks and the count are as before.
pub proof fn law_free_undoes_allocate(p: PmmView, idx: int)
    requires
        p.wf(),
        0 <= idx < p.used.len(),
        !p.used[idx],
    ensures
        p.used.update(idx, true).update(idx, false) == p.used,
        p.free >= 1,
        (p.free - 1) as nat + 1 == p.free,
{
    assert(p.used.update(idx, true).update(idx, false) =~= p.used);
    lemma_count_bound(p.used);
}

/// Bytes of all usable regions.
pub open spec fn usable_bytes_of(regions: Seq<MemoryRegion>) -> int
    decreases regions.len(),
{
    if regions.len() == 0 {
        0
    } else {
        usable_bytes_of(regions.drop_last()) + if regions.last().usable {
            regions.last().length as int
        } else {
            0
        }
    }
}

/// Bytes of all usable regions.
pub fn usable_bytes(regions: &[MemoryRegion]) -> (r: u64)
    requires
        usable_bytes_of(regions@) <= u64::MAX,
    ensures
        r == usable_bytes_of(regions@),
{
    let mut sum: u64 = 0;
    let mut i: usize = 0;
    assert(regions@.take(0) =~= Seq::empty());
    while i < regions.len()
        invariant
            i <= regions@.len(),
            usable_bytes_of(regions@) <= u64::MAX,
            sum == usable_bytes_of(regions@.take(i as int)),
        decreases regions@.len() - i,
    {
        proof {
            assert(regions@.take(i + 1).drop_last() =~= regions@.take(i as int));
            lemma_bytes_monotone(regions@, i + 1);
        }
        if regions[i].usable {
            sum += regions[i].length;
        }
        i += 1;
    }
    assert(regions@.take(regions@.len() as int) =~= regions@);
    sum
}

proof fn lemma_bytes_monotone(regions: Seq<MemoryRegion>, n: int)
    requires
        0 <= n <= regions.len(),
    ensures
        usable_bytes_of(regions.take(n)) <= usable_bytes_of(regions),
    decreases regions.len() - n,
{
    if n == regions.len() {
        assert(regions.take(n) =~= regions);
    } else {
        lemma_bytes_monotone(regions, n + 1);
        assert(regions.take(n + 1).drop_last() =~= regions.take(n));
    }
}

} // verus!
