//! Virtio network device: queues of descriptors and the frames in them.

use vstd::prelude::*;

use crate::network::registers::RegWrite;

verus! {

pub const REG_DEVICE_FEATURES: u16 = 0x00;

pub const REG_DRIVER_FEATURES: u16 = 0x04;

pub const REG_QUEUE_ADDR: u16 = 0x08;

pub const REG_QUEUE_SIZE: u16 = 0x0C;

pub const REG_QUEUE_SELECT: u16 = 0x0E;

pub const REG_QUEUE_NOTIFY: u16 = 0x10;

pub const REG_DEVICE_STATUS: u16 = 0x12;

pub const REG_ISR_STATUS: u16 = 0x13;

pub const REG_MAC_BASE: u16 = 0x14;

pub const STATUS_ACKNOWLEDGE: u8 = 1;

pub const STATUS_DRIVER: u8 = 2;

pub const STATUS_DRIVER_OK: u8 = 4;

/// The device has an address.
pub const VIRTIO_NET_F_MAC: u32 = 0x20;

/// The device writes into the buffer.
pub const VRING_DESC_F_WRITE: u16 = 2;

/// Bytes of the header before each frame.
pub const VIRTIO_NET_HDR_SIZE: usize = 10;

/// Bytes of a receive buffer: the longest frame and its header.
pub const RX_BUF_SIZE: usize = 1524;

/// Where the parts of a queue stand in its memory.
#[derive(Debug, Clone, Copy, PartialEq, Eq, Structural)]
pub struct QueueLayout {
    /// Offset of the available ring, behind the descriptors.
    pub avail_offset: usize,
    /// Offset of the used ring, on the next page.
    pub used_offset: usize,
    /// Bytes in all.
    pub total: usize,
}

/// The layout of a queue: descriptors of 16 bytes; flags, index, entries of two bytes
/// and an event; from the next page on flags, index, entries of eight bytes and an
/// event.
pub fn queue_layout(qsize: u16) -> (r: QueueLayout)
    ensures
        r.avail_offset == qsize * 16,
        r.used_offset % 4096 == 0,
        r.avail_offset + 6 + qsize * 2 <= r.used_offset < r.avail_offset + 6 + qsize * 2 + 4096,
        r.total == r.used_offset + 6 + qsize * 8,
{
    let q = qsize as usize;
    let end = q * 16 + 4 + q * 2 + 2;
    let up = end + 4095;
    let used_offset = up - up % 4096;
    QueueLayout { avail_offset: q * 16, used_offset, total: used_offset + 4 + q * 8 + 2 }
}

/// A descriptor.
#[derive(Debug, Clone, Copy, PartialEq, Eq, Structural)]
pub struct VringDesc {
    /// Physical address of the buffer.
    pub addr: u64,
    pub len: u32,
    pub flags: u16,
    /// Next free descriptor, while this one is free.
    pub next: u16,
}

/// An entry of the used ring: a descriptor that the device is done with, and how many
/// bytes it wrote.
#[derive(Debug, Clone, Copy, PartialEq, Eq, Structural)]
pub struct UsedElem {
    pub id: u32,
    pub len: u32,
}

/// A queue: descriptors, the list of those that are free, and the available ring.
pub struct Virtqueue {
    pub descs: Vec<VringDesc>,
    pub avail_ring: Vec<u16>,
    pub avail_idx: u16,
    /// Physical address of the queue.
    pub phys_base: u64,
    pub free_head: u16,
    pub num_free: u16,
    /// Entries of the used ring that were taken so far.
    pub last_used_idx: u16,
}

/// The `n` descriptors that follow each other from `head` on.
pub open spec fn chain(descs: Seq<VringDesc>, head: u16, n: nat) -> Seq<u16>
    decreases n,
{
    if n == 0 {
        Seq::empty()
    } else {
        seq![head] + chain(descs, descs[head as int].next, (n - 1) as nat)
    }
}

/// A list of descriptors that exist, none of them twice.
pub open spec fn list_ok(list: Seq<u16>, size: int) -> bool {
    &&& forall|i: int| 0 <= i < list.len() ==> #[trigger] list[i] < size
    &&& forall|i: int, j: int| 0 <= i < j < list.len() ==> #[trigger] list[i] != #[trigger] list[j]
}

/// A chain does not change with descriptors that are not in it.
proof fn lemma_chain_frame(a: Seq<VringDesc>, b: Seq<VringDesc>, head: u16, n: nat)
    requires
        a.len() == b.len(),
        list_ok(chain(a, head, n), a.len() as int),
        forall|i: int| 0 <= i < n ==> b[#[trigger] chain(a, head, n)[i] as int].next == a[chain(a, head, n)[i] as int].next,
    ensures
        chain(b, head, n) == chain(a, head, n),
    decreases n,
{
    if n > 0 {
        let c = chain(a, head, n);
        let rest = chain(a, a[head as int].next, (n - 1) as nat);
        assert(c[0] == head);
        assert forall|i: int| 0 <= i < rest.len() implies rest[i] == c[i + 1] by {}
        assert(list_ok(rest, a.len() as int)) by {
            assert forall|i: int| 0 <= i < rest.len() implies #[trigger] rest[i] < a.len() by {
                assert(rest[i] == c[i + 1]);
            }
            assert forall|i: int, j: int| 0 <= i < j < rest.len() implies #[trigger] rest[i] != #[trigger] rest[j] by {
                assert(rest[i] == c[i + 1] && rest[j] == c[j + 1]);
            }
        }
        lemma_chain_len(a, a[head as int].next, (n - 1) as nat);
        assert forall|i: int| 0 <= i < n - 1 implies b[#[trigger] rest[i] as int].next == a[rest[i] as int].next by {
            assert(rest[i] == c[i + 1]);
        }
        lemma_chain_frame(a, b, a[head as int].next, (n - 1) as nat);
    }
}

proof fn lemma_chain_len(a: Seq<VringDesc>, head: u16, n: nat)
    ensures
        chain(a, head, n).len() == n,
    decreases n,
{
    if n > 0 {
        lemma_chain_len(a, a[head as int].next, (n - 1) as nat);
    }
}

/// A list of different numbers below a bound is no longer than the bound.
proof fn lemma_list_bound(list: Seq<u16>, size: int)
    requires
        list_ok(list, size),
        0 <= size,
    ensures
        list.len() <= size,
    decreases size,
{
    if size == 0 {
        if list.len() > 0 {
            assert(list[0] < size);
        }
    } else {
        if exists|i: int| 0 <= i < list.len() && #[trigger] list[i] == size - 1 {
            let k = choose|i: int| 0 <= i < list.len() && #[trigger] list[i] == size - 1;
            let rest = list.remove(k);
            assert forall|i: int| 0 <= i < rest.len() implies #[trigger] rest[i] < size - 1 by {
                let a = if i < k { i } else { i + 1 };
                assert(rest[i] == list[a]);
                assert(list[a] != list[k]);
            }
            assert forall|i: int, j: int| 0 <= i < j < rest.len() implies #[trigger] rest[i] != #[trigger] rest[j] by {
                let a = if i < k { i } else { i + 1 };
                let b = if j < k { j } else { j + 1 };
                assert(rest[i] == list[a] && rest[j] == list[b]);
            }
            lemma_list_bound(rest, size - 1);
        } else {
            assert forall|i: int| 0 <= i < list.len() implies #[trigger] list[i] < size - 1 by {
                assert(list[i] != size - 1);
            }
            lemma_list_bound(list, size - 1);
        }
    }
}

/// A descriptor was taken: it was the first of the free list.
pub open spec fn taken(before: Virtqueue, idx: u16, after: Virtqueue) -> bool {
    &&& idx == before.free_list()[0]
    &&& after.free_list() == before.free_list().skip(1)
}

/// A descriptor was returned: it is the first of the free list.
pub open spec fn returned(before: Virtqueue, idx: u16, after: Virtqueue) -> bool {
    after.free_list() == seq![idx] + before.free_list()
}

/// How many entries lie between two positions that count round.
pub open spec fn entries_between(from: u16, to: u16) -> int {
    (to - from) % 0x1_0000
}

/// The position behind another one.
pub open spec fn position_behind(i: u16) -> u16 {
    if i == u16::MAX {
        0
    } else {
        (i + 1) as u16
    }
}

/// The descriptor that an entry of the used ring names.
pub open spec fn named(ring: Seq<UsedElem>, size: int, at: u16) -> u16 {
    (ring[at as int % size].id % 0x1_0000) as u16
}

/// Every entry from one position to another names a descriptor that exists.
pub open spec fn names_exist(size: int, from: u16, to: u16, ring: Seq<UsedElem>) -> bool
    decreases entries_between(from, to),
{
    from == to || size <= 0 || (named(ring, size, from) < size && names_exist(size, position_behind(from), to, ring))
}

/// Some entry from one position to another names the descriptor.
pub open spec fn is_named(k: u16, size: int, from: u16, to: u16, ring: Seq<UsedElem>) -> bool
    decreases entries_between(from, to),
{
    from != to && size > 0 && (named(ring, size, from) == k || is_named(k, size, position_behind(from), to, ring))
}

/// Every entry from one position to another names a descriptor that exists and is in use
/// when its turn comes, where `list` is the free list before.
pub open spec fn names_in_use(list: Seq<u16>, size: int, from: u16, to: u16, ring: Seq<UsedElem>) -> bool
    decreases entries_between(from, to),
{
    let id = named(ring, size, from);
    from == to || size <= 0 || (id < size && !list.contains(id) && names_in_use(
        seq![id] + list,
        size,
        position_behind(from),
        to,
        ring,
    ))
}

/// The free list after the descriptors that the entries name were returned, one after the
/// other: the last one comes first.
pub open spec fn reclaimed(list: Seq<u16>, size: int, from: u16, to: u16, ring: Seq<UsedElem>) -> Seq<u16>
    decreases entries_between(from, to),
{
    if from == to || size <= 0 {
        list
    } else {
        reclaimed(seq![named(ring, size, from)] + list, size, position_behind(from), to, ring)
    }
}

/// The first free descriptor after that: the one that the last entry names.
pub open spec fn reclaimed_head(head: u16, size: int, from: u16, to: u16, ring: Seq<UsedElem>) -> u16
    decreases entries_between(from, to),
{
    if from == to || size <= 0 {
        head
    } else {
        reclaimed_head(named(ring, size, from), size, position_behind(from), to, ring)
    }
}

/// The descriptors after that: each that is named loses its flags and leads to the one
/// that was the first free one before it.
pub open spec fn reclaimed_descs(
    descs: Seq<VringDesc>,
    head: u16,
    from: u16,
    to: u16,
    ring: Seq<UsedElem>,
) -> Seq<VringDesc>
    decreases entries_between(from, to),
{
    let size = descs.len() as int;
    if from == to || size <= 0 {
        descs
    } else {
        let id = named(ring, size, from);
        reclaimed_descs(
            descs.update(id as int, VringDesc { flags: 0, next: head, ..descs[id as int] }),
            id,
            position_behind(from),
            to,
            ring,
        )
    }
}

/// Reclaiming leaves every buffer where it is, and leaves a descriptor that no entry names
/// as it was.
pub proof fn law_reclaim_keeps_buffers(
    descs: Seq<VringDesc>,
    head: u16,
    from: u16,
    to: u16,
    ring: Seq<UsedElem>,
    k: u16,
)
    requires
        k < descs.len(),
        names_exist(descs.len() as int, from, to, ring),
    ensures
        ({
            let after = reclaimed_descs(descs, head, from, to, ring);
            &&& after.len() == descs.len()
            &&& after[k as int].addr == descs[k as int].addr
            &&& after[k as int].len == descs[k as int].len
            &&& !is_named(k, descs.len() as int, from, to, ring) ==> after[k as int] == descs[k as int]
        }),
    decreases entries_between(from, to),
{
    if from != to {
        let id = named(ring, descs.len() as int, from);
        law_reclaim_keeps_buffers(
            descs.update(id as int, VringDesc { flags: 0, next: head, ..descs[id as int] }),
            id,
            position_behind(from),
            to,
            ring,
            k,
        );
    }
}

impl Virtqueue {
    /// The free descriptors, in the order in which they are handed out.
    pub open spec fn free_list(&self) -> Seq<u16> {
        chain(self.descs@, self.free_head, self.num_free as nat)
    }

    /// The queue's invariant, whatever the device does: every link leads to a descriptor
    /// that exists.
    pub open spec fn wf(&self) -> bool {
        &&& 0 < self.descs@.len() <= u16::MAX
        &&& self.avail_ring@.len() == self.descs@.len()
        &&& self.free_head < self.descs@.len()
        &&& forall|k: int| 0 <= k < self.descs@.len() ==> (#[trigger] self.descs@[k]).next < self.descs@.len()
    }

    /// The free list holds no descriptor twice. It stays so as long as the device names
    /// no descriptor that it was not given.
    pub open spec fn sound(&self) -> bool {
        self.wf() && list_ok(self.free_list(), self.descs@.len() as int)
    }

    /// A queue of the size that the device gave, all descriptors free, at a physical
    /// address.
    pub fn new(qsize: u16, phys_base: u64) -> (r: Self)
        requires
            qsize > 0,
        ensures
            r.wf(),
            r.sound(),
            r.descs@.len() == qsize,
            r.num_free == qsize,
            r.free_list() == Seq::new(qsize as nat, |i: int| i as u16),
            r.free_head == 0,
            r.descs@ == Seq::new(
                qsize as nat,
                |i: int|
                    VringDesc {
                        addr: 0,
                        len: 0,
                        flags: 0,
                        next: if i < qsize - 1 {
                            (i + 1) as u16
                        } else {
                            0
                        },
                    },
            ),
            r.avail_ring@ == Seq::new(qsize as nat, |i: int| 0u16),
            r.avail_idx == 0,
            r.last_used_idx == 0,
            r.phys_base == phys_base,
    {
        let mut descs: Vec<VringDesc> = Vec::new();
        let mut avail: Vec<u16> = Vec::new();
        let mut i: u16 = 0;
        while i < qsize
            invariant
                i <= qsize,
                descs@.len() == i,
                avail@.len() == i,
                forall|k: int|
                    0 <= k < i ==> #[trigger] descs@[k] == (VringDesc {
                        addr: 0,
                        len: 0,
                        flags: 0,
                        next: if k < qsize - 1 {
                            (k + 1) as u16
                        } else {
                            0
                        },
                    }),
                forall|k: int| 0 <= k < i ==> #[trigger] avail@[k] == 0,
            decreases qsize - i,
        {
            let next = if i < qsize - 1 {
                i + 1
            } else {
                0
            };
            descs.push(VringDesc { addr: 0, len: 0, flags: 0, next });
            avail.push(0);
            i += 1;
        }
        proof {
            lemma_first_chain(descs@, 0, qsize as nat);
            assert(chain(descs@, 0, qsize as nat) =~= Seq::new(qsize as nat, |i: int| i as u16));
        }
        Virtqueue {
            descs,
            avail_ring: avail,
            avail_idx: 0,
            phys_base,
            free_head: 0,
            num_free: qsize,
            last_used_idx: 0,
        }
    }

    /// The page of the queue, for the device.
    pub fn page_number(&self) -> (r: u32)
        ensures
            r == self.phys_base / 4096 % 0x1_0000_0000,
    {
        (self.phys_base / 4096 % 0x1_0000_0000) as u32
    }

    /// Take a descriptor from the free list.
    pub fn alloc_desc(&mut self) -> (r: Option<u16>)
        requires
            old(self).wf(),
        ensures
            final(self).wf(),
            final(self).descs == old(self).descs,
            final(self).avail_ring == old(self).avail_ring,
            final(self).avail_idx == old(self).avail_idx,
            final(self).last_used_idx == old(self).last_used_idx,
            final(self).phys_base == old(self).phys_base,
            match r {
                Some(idx) => {
                    &&& old(self).num_free > 0
                    &&& idx == old(self).free_head
                    &&& taken(*old(self), idx, *final(self))
                    &&& final(self).num_free == old(self).num_free - 1
                    &&& final(self).free_head == old(self).descs@[idx as int].next
                    &&& old(self).sound() ==> final(self).sound() && !final(self).free_list().contains(idx)
                },
                None => old(self).num_free == 0 && *final(self) == *old(self),
            },
    {
        if self.num_free == 0 {
            return None;
        }
        let idx = self.free_head;
        let ghost list = self.free_list();
        proof {
            lemma_chain_len(self.descs@, self.free_head, self.num_free as nat);
            assert(list[0] == idx);
        }
        self.free_head = self.descs[idx as usize].next;
        self.num_free -= 1;
        proof {
            let after = self.free_list();
            assert(after =~= list.skip(1));
            if old(self).sound() {
                assert forall|i: int| 0 <= i < after.len() implies #[trigger] after[i] < self.descs@.len() by {
                    assert(after[i] == list[i + 1]);
                }
                assert forall|i: int, j: int| 0 <= i < j < after.len() implies #[trigger] after[i]
                    != #[trigger] after[j] by {
                    assert(after[i] == list[i + 1] && after[j] == list[j + 1]);
                }
                if after.contains(idx) {
                    let i = choose|i: int| 0 <= i < after.len() && after[i] == idx;
                    assert(list[0] != list[i + 1]);
                }
            }
        }
        Some(idx)
    }

    /// Return a descriptor to the free list.
    pub fn free_desc(&mut self, idx: u16)
        requires
            old(self).wf(),
            idx < old(self).descs@.len(),
            old(self).num_free < u16::MAX,
        ensures
            final(self).wf(),
            final(self).num_free == old(self).num_free + 1,
            final(self).free_head == idx,
            final(self).descs@ == old(self).descs@.update(
                idx as int,
                VringDesc { flags: 0, next: old(self).free_head, ..old(self).descs@[idx as int] },
            ),
            final(self).avail_ring == old(self).avail_ring,
            final(self).avail_idx == old(self).avail_idx,
            final(self).last_used_idx == old(self).last_used_idx,
            final(self).phys_base == old(self).phys_base,
            old(self).sound() && !old(self).free_list().contains(idx) ==> final(self).sound() && returned(
                *old(self),
                idx,
                *final(self),
            ),
    {
        let ghost list = self.free_list();
        let ghost before = self.descs@;
        let d = self.descs[idx as usize];
        self.descs[idx as usize] = VringDesc { addr: d.addr, len: d.len, flags: 0, next: self.free_head };
        proof {
            if old(self).sound() && !list.contains(idx) {
                let both = seq![idx] + list;
                lemma_chain_len(before, self.free_head, self.num_free as nat);
                assert forall|i: int| 0 <= i < both.len() implies #[trigger] both[i] < before.len() by {
                    if i > 0 {
                        assert(both[i] == list[i - 1]);
                    }
                }
                assert forall|i: int, j: int| 0 <= i < j < both.len() implies #[trigger] both[i]
                    != #[trigger] both[j] by {
                    assert(both[j] == list[j - 1]);
                    if i > 0 {
                        assert(both[i] == list[i - 1]);
                    }
                }
                assert forall|i: int| 0 <= i < self.num_free implies self.descs@[#[trigger] list[i] as int].next
                    == before[list[i] as int].next by {
                    assert(list[i] != idx);
                }
                lemma_chain_frame(before, self.descs@, self.free_head, self.num_free as nat);
            }
        }
        self.free_head = idx;
        self.num_free += 1;
        proof {
            if old(self).sound() && !list.contains(idx) {
                assert(self.free_list() =~= seq![idx] + list);
            }
        }
    }

    /// Offer a descriptor to the device: it becomes the next entry of the available ring.
    pub fn push_avail(&mut self, desc_idx: u16)
        requires
            old(self).wf(),
        ensures
            final(self).wf(),
            old(self).sound() ==> final(self).sound(),
            final(self).descs == old(self).descs,
            final(self).free_head == old(self).free_head,
            final(self).num_free == old(self).num_free,
            final(self).last_used_idx == old(self).last_used_idx,
            final(self).phys_base == old(self).phys_base,
            final(self).avail_ring@ == old(self).avail_ring@.update(
                old(self).avail_idx as int % (old(self).descs@.len() as int),
                desc_idx,
            ),
            final(self).avail_idx == position_behind(old(self).avail_idx),
    {
        let at = self.avail_idx as usize % self.descs.len();
        self.avail_ring[at] = desc_idx;
        self.avail_idx = self.avail_idx.wrapping_add(1);
    }

    /// Take the next entry of the used ring, where the device has added one since.
    pub fn pop_used(&mut self, used_idx: u16, used_ring: &[UsedElem]) -> (r: Option<(u16, u32)>)
        requires
            old(self).wf(),
            used_ring@.len() == old(self).descs@.len(),
        ensures
            final(self).wf(),
            old(self).sound() ==> final(self).sound(),
            final(self).descs == old(self).descs,
            final(self).avail_ring == old(self).avail_ring,
            final(self).avail_idx == old(self).avail_idx,
            final(self).free_head == old(self).free_head,
            final(self).num_free == old(self).num_free,
            final(self).phys_base == old(self).phys_base,
            if old(self).last_used_idx == used_idx {
                r is None && final(self).last_used_idx == old(self).last_used_idx
            } else {
                let e = used_ring@[old(self).last_used_idx as int % (old(self).descs@.len() as int)];
                &&& r == Some(((e.id % 0x1_0000) as u16, e.len))
                &&& final(self).last_used_idx == position_behind(old(self).last_used_idx)
            },
    {
        if self.last_used_idx == used_idx {
            return None;
        }
        let at = self.last_used_idx as usize % self.descs.len();
        let e = used_ring[at];
        self.last_used_idx = self.last_used_idx.wrapping_add(1);
        Some(((e.id % 0x1_0000) as u16, e.len))
    }

    /// Free the descriptors that the device is done with: those that its entries name.
    pub fn reclaim(&mut self, used_idx: u16, used_ring: &[UsedElem])
        requires
            old(self).wf(),
            used_ring@.len() == old(self).descs@.len(),
            names_exist(old(self).descs@.len() as int, old(self).last_used_idx, used_idx, used_ring@),
            old(self).num_free + entries_between(old(self).last_used_idx, used_idx) <= u16::MAX,
        ensures
            final(self).wf(),
            final(self).descs@ == reclaimed_descs(
                old(self).descs@,
                old(self).free_head,
                old(self).last_used_idx,
                used_idx,
                used_ring@,
            ),
            final(self).free_head == reclaimed_head(
                old(self).free_head,
                old(self).descs@.len() as int,
                old(self).last_used_idx,
                used_idx,
                used_ring@,
            ),
            final(self).num_free == old(self).num_free + entries_between(old(self).last_used_idx, used_idx),
            final(self).last_used_idx == used_idx,
            final(self).descs@.len() == old(self).descs@.len(),
            final(self).avail_ring == old(self).avail_ring,
            final(self).avail_idx == old(self).avail_idx,
            final(self).phys_base == old(self).phys_base,
            old(self).sound() && names_in_use(
                old(self).free_list(),
                old(self).descs@.len() as int,
                old(self).last_used_idx,
                used_idx,
                used_ring@,
            ) ==> final(self).sound() && final(self).free_list() == reclaimed(
                old(self).free_list(),
                old(self).descs@.len() as int,
                old(self).last_used_idx,
                used_idx,
                used_ring@,
            ),
    {
        let ghost size = self.descs@.len() as int;
        let ghost start = self.last_used_idx;
        let ghost free = self.num_free;
        let ghost fair = self.sound() && names_in_use(self.free_list(), size, start, used_idx, used_ring@);
        let ghost list0 = self.free_list();
        let ghost cells = reclaimed_descs(self.descs@, self.free_head, start, used_idx, used_ring@);
        let ghost head = reclaimed_head(self.free_head, size, start, used_idx, used_ring@);
        while self.last_used_idx != used_idx
            invariant
                self.wf(),
                self.descs@.len() == size,
                used_ring@.len() == size,
                names_exist(size, self.last_used_idx, used_idx, used_ring@),
                self.num_free + entries_between(self.last_used_idx, used_idx) == free + entries_between(start, used_idx),
                free + entries_between(start, used_idx) <= u16::MAX,
                cells == reclaimed_descs(self.descs@, self.free_head, self.last_used_idx, used_idx, used_ring@),
                head == reclaimed_head(self.free_head, size, self.last_used_idx, used_idx, used_ring@),
                fair ==> self.sound() && names_in_use(self.free_list(), size, self.last_used_idx, used_idx, used_ring@),
                fair ==> reclaimed(self.free_list(), size, self.last_used_idx, used_idx, used_ring@) == reclaimed(
                    list0,
                    size,
                    start,
                    used_idx,
                    used_ring@,
                ),
                self.avail_ring == old(self).avail_ring,
                self.avail_idx == old(self).avail_idx,
                self.phys_base == old(self).phys_base,
            decreases entries_between(self.last_used_idx, used_idx),
        {
            let ghost list = self.free_list();
            let ghost from = self.last_used_idx;
            match self.pop_used(used_idx, used_ring) {
                Some((idx, _)) => {
                    assert(idx == named(used_ring@, size, from));
                    assert(self.free_list() == list);
                    assert(entries_between(from, used_idx) == entries_between(position_behind(from), used_idx) + 1);
                    self.free_desc(idx);
                },
                None => {},
            }
        }
    }

    /// Fill a descriptor and offer it to the device.
    fn offer(&mut self, idx: u16, phys: u64, len: u32, flags: u16)
        requires
            old(self).wf(),
            idx < old(self).descs@.len(),
        ensures
            final(self).wf(),
            final(self).num_free == old(self).num_free,
            final(self).free_head == old(self).free_head,
            final(self).last_used_idx == old(self).last_used_idx,
            final(self).phys_base == old(self).phys_base,
            final(self).descs@ == old(self).descs@.update(idx as int, VringDesc { addr: phys, len, flags, next: 0 }),
            final(self).avail_ring@ == old(self).avail_ring@.update(
                old(self).avail_idx as int % (old(self).descs@.len() as int),
                idx,
            ),
            final(self).avail_idx == position_behind(old(self).avail_idx),
            old(self).sound() && !old(self).free_list().contains(idx) ==> final(self).sound()
                && final(self).free_list() == old(self).free_list(),
    {
        let ghost list = self.free_list();
        let ghost before = self.descs@;
        self.descs[idx as usize] = VringDesc { addr: phys, len, flags, next: 0 };
        proof {
            if old(self).sound() && !list.contains(idx) {
                lemma_chain_len(before, self.free_head, self.num_free as nat);
                assert forall|i: int| 0 <= i < self.num_free implies self.descs@[#[trigger] list[i] as int].next
                    == before[list[i] as int].next by {
                    assert(list[i] != idx);
                }
                lemma_chain_frame(before, self.descs@, self.free_head, self.num_free as nat);
            }
        }
        self.push_avail(idx);
    }

    /// Offer a buffer to the device, to be written into (`flags` 2) or read. Returns the
    /// descriptor, or none where all are in use.
    pub fn submit(&mut self, phys: u64, len: u32, flags: u16) -> (r: Option<u16>)
        requires
            old(self).wf(),
        ensures
            final(self).wf(),
            old(self).sound() ==> final(self).sound(),
            match r {
                Some(idx) => {
                    &&& old(self).num_free > 0
                    &&& idx == old(self).free_head
                    &&& old(self).sound() ==> taken(*old(self), idx, *final(self))
                    &&& final(self).num_free == old(self).num_free - 1
                    &&& final(self).free_head == old(self).descs@[idx as int].next
                    &&& final(self).descs@ == old(self).descs@.update(
                        idx as int,
                        VringDesc { addr: phys, len, flags, next: 0 },
                    )
                    &&& final(self).avail_ring@ == old(self).avail_ring@.update(
                        old(self).avail_idx as int % (old(self).descs@.len() as int),
                        idx,
                    )
                    &&& final(self).avail_idx == position_behind(old(self).avail_idx)
                },
                None => old(self).num_free == 0 && *final(self) == *old(self),
            },
            final(self).last_used_idx == old(self).last_used_idx,
            final(self).phys_base == old(self).phys_base,
    {
        match self.alloc_desc() {
            Some(idx) => {
                self.offer(idx, phys, len, flags);
                Some(idx)
            },
            None => None,
        }
    }

    /// Offer a receive buffer to the device again.
    pub fn resubmit_rx(&mut self, idx: u16, phys: u64)
        requires
            old(self).wf(),
            idx < old(self).descs@.len(),
        ensures
            final(self).wf(),
            final(self).descs@ == old(self).descs@.update(
                idx as int,
                VringDesc { addr: phys, len: RX_BUF_SIZE as u32, flags: VRING_DESC_F_WRITE, next: 0 },
            ),
            final(self).avail_ring@ == old(self).avail_ring@.update(
                old(self).avail_idx as int % (old(self).descs@.len() as int),
                idx,
            ),
            final(self).avail_idx == position_behind(old(self).avail_idx),
            final(self).num_free == old(self).num_free,
            final(self).free_head == old(self).free_head,
            final(self).last_used_idx == old(self).last_used_idx,
            final(self).phys_base == old(self).phys_base,
            old(self).sound() && !old(self).free_list().contains(idx) ==> final(self).sound()
                && final(self).free_list() == old(self).free_list(),
    {
        self.offer(idx, phys, RX_BUF_SIZE as u32, VRING_DESC_F_WRITE);
    }
}

proof fn lemma_first_chain(descs: Seq<VringDesc>, head: u16, n: nat)
    requires
        head + n == descs.len() || n == 0,
        descs.len() <= u16::MAX,
        forall|k: int|
            0 <= k < descs.len() ==> (#[trigger] descs[k]).next == (if k < descs.len() - 1 {
                k + 1
            } else {
                0
            }),
    ensures
        chain(descs, head, n).len() == n,
        forall|i: int| 0 <= i < n ==> #[trigger] chain(descs, head, n)[i] == head + i,
    decreases n,
{
    if n > 0 {
        let next = descs[head as int].next;
        lemma_first_chain(descs, next, (n - 1) as nat);
        assert forall|i: int| 0 <= i < n implies #[trigger] chain(descs, head, n)[i] == head + i by {
            if i > 0 {
                assert(chain(descs, head, n)[i] == chain(descs, next, (n - 1) as nat)[i - 1]);
            }
        }
    }
}

/// A descriptor that is taken and returned leaves the free list as it was.
pub proof fn law_free_undoes_alloc(before: Virtqueue, idx: u16, during: Virtqueue, after: Virtqueue)
    requires
        before.num_free > 0,
        taken(before, idx, during),
        returned(during, idx, after),
    ensures
        after.free_list() == before.free_list(),
{
    lemma_chain_len(before.descs@, before.free_head, before.num_free as nat);
    assert(seq![idx] + before.free_list().skip(1) =~= before.free_list());
}

/// No descriptor is handed out twice before it is returned.
pub proof fn law_no_descriptor_twice(a: Virtqueue, first: u16, b: Virtqueue, second: u16, c: Virtqueue)
    requires
        a.sound(),
        a.num_free > 1,
        taken(a, first, b),
        taken(b, second, c),
    ensures
        first != second,
        !c.free_list().contains(first),
        !c.free_list().contains(second),
{
    let list = a.free_list();
    lemma_chain_len(a.descs@, a.free_head, a.num_free as nat);
    assert(second == list[1]);
    assert(list[0] != list[1]);
    assert(c.free_list() =~= list.skip(2));
    assert forall|k: int| 0 <= k < c.free_list().len() implies c.free_list()[k] != first && c.free_list()[k] != second by {
        assert(c.free_list()[k] == list[k + 2]);
        assert(list[0] != list[k + 2] && list[1] != list[k + 2]);
    }
}

/// A sound queue that has given a descriptor out has room to take it back.
pub proof fn law_room_for_a_descriptor_in_use(q: Virtqueue, idx: u16)
    requires
        q.sound(),
        idx < q.descs@.len(),
        !q.free_list().contains(idx),
    ensures
        q.num_free < q.descs@.len(),
{
    let list = q.free_list();
    let both = seq![idx] + list;
    lemma_chain_len(q.descs@, q.free_head, q.num_free as nat);
    assert forall|i: int| 0 <= i < both.len() implies #[trigger] both[i] < q.descs@.len() by {
        if i > 0 {
            assert(both[i] == list[i - 1]);
        }
    }
    assert forall|i: int, j: int| 0 <= i < j < both.len() implies #[trigger] both[i] != #[trigger] both[j] by {
        assert(both[j] == list[j - 1]);
        if i > 0 {
            assert(both[i] == list[i - 1]);
        }
    }
    lemma_list_bound(both, q.descs@.len() as int);
}

/// The bytes that are sent for a frame: an empty header, then the frame.
pub fn tx_bytes(frame: &[u8]) -> (r: Vec<u8>)
    ensures
        r@ == Seq::new(VIRTIO_NET_HDR_SIZE as nat, |i: int| 0u8) + frame@,
{
    let mut v = crate::network::registers::zeros(VIRTIO_NET_HDR_SIZE);
    let mut f = vstd::slice::slice_to_vec(frame);
    v.append(&mut f);
    v
}

/// The length of a received frame, where it fits the caller's buffer: what the device
/// wrote, without the header.
pub fn rx_frame_len(total_len: u32, room: usize) -> (r: Option<usize>)
    requires
        total_len >= VIRTIO_NET_HDR_SIZE,
    ensures
        r == if total_len - VIRTIO_NET_HDR_SIZE > room {
            None
        } else {
            Some((total_len - VIRTIO_NET_HDR_SIZE) as usize)
        },
{
    let len = total_len as usize - VIRTIO_NET_HDR_SIZE;
    if len > room {
        None
    } else {
        Some(len)
    }
}

/// The features that the driver accepts: the address, where the device has one.
pub fn accepted_features(features: u32) -> (r: u32)
    ensures
        r == features & VIRTIO_NET_F_MAC,
{
    features & VIRTIO_NET_F_MAC
}

/// The writes that reset the device and announce a driver.
pub fn handshake_program() -> (r: Vec<RegWrite>)
    ensures
        r@ == seq![
            RegWrite::Byte(REG_DEVICE_STATUS, 0),
            RegWrite::Byte(REG_DEVICE_STATUS, 1),
            RegWrite::Byte(REG_DEVICE_STATUS, 3),
        ],
{
    let mut p: Vec<RegWrite> = Vec::new();
    p.push(RegWrite::Byte(REG_DEVICE_STATUS, 0));
    p.push(RegWrite::Byte(REG_DEVICE_STATUS, STATUS_ACKNOWLEDGE));
    p.push(RegWrite::Byte(REG_DEVICE_STATUS, STATUS_ACKNOWLEDGE + STATUS_DRIVER));
    assert(p@ =~= seq![
        RegWrite::Byte(REG_DEVICE_STATUS, 0),
        RegWrite::Byte(REG_DEVICE_STATUS, 1),
        RegWrite::Byte(REG_DEVICE_STATUS, 3),
    ]);
    p
}

/// The writes that tell the device its features and where its queues are.
pub fn setup_program(features: u32, rx_page: u32, tx_page: u32) -> (r: Vec<RegWrite>)
    ensures
        r@ == seq![
            RegWrite::Long(REG_DRIVER_FEATURES, features & VIRTIO_NET_F_MAC),
            RegWrite::Word(REG_QUEUE_SELECT, 0),
            RegWrite::Long(REG_QUEUE_ADDR, rx_page),
            RegWrite::Word(REG_QUEUE_SELECT, 1),
            RegWrite::Long(REG_QUEUE_ADDR, tx_page),
        ],
{
    let mut p: Vec<RegWrite> = Vec::new();
    p.push(RegWrite::Long(REG_DRIVER_FEATURES, accepted_features(features)));
    p.push(RegWrite::Word(REG_QUEUE_SELECT, 0));
    p.push(RegWrite::Long(REG_QUEUE_ADDR, rx_page));
    p.push(RegWrite::Word(REG_QUEUE_SELECT, 1));
    p.push(RegWrite::Long(REG_QUEUE_ADDR, tx_page));
    assert(p@ =~= seq![
        RegWrite::Long(REG_DRIVER_FEATURES, features & VIRTIO_NET_F_MAC),
        RegWrite::Word(REG_QUEUE_SELECT, 0),
        RegWrite::Long(REG_QUEUE_ADDR, rx_page),
        RegWrite::Word(REG_QUEUE_SELECT, 1),
        RegWrite::Long(REG_QUEUE_ADDR, tx_page),
    ]);
    p
}

/// The write that makes the device live.
pub fn live_write() -> (r: RegWrite)
    ensures
        r == RegWrite::Byte(REG_DEVICE_STATUS, 7),
{
    RegWrite::Byte(REG_DEVICE_STATUS, STATUS_ACKNOWLEDGE + STATUS_DRIVER + STATUS_DRIVER_OK)
}

} // verus!
