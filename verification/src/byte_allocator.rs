//! The allocator core: capacity counters, probe thresholds, pending-reclaim
//! slots, and the sentinel-driven flush cycle.

use vstd::prelude::*;
use crate::AllocError;

verus! {

/// A pending-reclaim slot: it may hold a block (address, size, alignment)
/// captured at allocation time because the requested size matched a visible
/// probe threshold.  A held block is released at the next flush cycle.
#[derive(Clone, Copy, Debug)]
pub struct UnfreedBlock {
    /// Address of the captured block, when one is held.
    pub ptr: Option<usize>,
    /// Size the captured block was allocated with.
    pub size: usize,
    /// Alignment the captured block was allocated with.
    pub align: usize,
}

impl UnfreedBlock {
    /// A slot that holds nothing.
    pub open spec fn empty() -> UnfreedBlock {
        UnfreedBlock { ptr: None, size: 0, align: 0 }
    }
}

/// How many bytes a pending-reclaim slot will give back at the next flush.
pub open spec fn slot_contribution(b: UnfreedBlock) -> int {
    if b.ptr is Some {
        b.size as int
    } else {
        0
    }
}

/// Total bytes held by a sequence of pending-reclaim slots.
pub open spec fn pending_total_seq(s: Seq<UnfreedBlock>) -> int
    decreases s.len(),
{
    if s.len() == 0 {
        0
    } else {
        pending_total_seq(s.drop_last()) + slot_contribution(s.last())
    }
}

/// The (address, alignment) pairs of the held blocks in a sequence of slots,
/// in slot order: what a flush over those slots hands back for release.
pub open spec fn flushed_records(s: Seq<UnfreedBlock>) -> Seq<(usize, usize)>
    decreases s.len(),
{
    if s.len() == 0 {
        Seq::empty()
    } else if s.last().ptr is Some {
        flushed_records(s.drop_last()).push((s.last().ptr->0, s.last().align))
    } else {
        flushed_records(s.drop_last())
    }
}

/// A pending total is never negative.
pub proof fn lemma_pending_total_nonneg(s: Seq<UnfreedBlock>)
    ensures
        pending_total_seq(s) >= 0,
    decreases s.len(),
{
    if s.len() > 0 {
        lemma_pending_total_nonneg(s.drop_last());
    }
}

/// Splitting a slot sequence splits its pending total.
pub proof fn lemma_pending_total_split(s: Seq<UnfreedBlock>, k: int)
    requires
        0 <= k <= s.len(),
    ensures
        pending_total_seq(s) == pending_total_seq(s.subrange(0, k)) + pending_total_seq(
            s.subrange(k, s.len() as int),
        ),
    decreases s.len(),
{
    if k == s.len() {
        assert(s.subrange(0, k) =~= s);
        assert(s.subrange(k, s.len() as int) =~= Seq::<UnfreedBlock>::empty());
    } else {
        lemma_pending_total_split(s.drop_last(), k);
        assert(s.drop_last().subrange(0, k) =~= s.subrange(0, k));
        assert(s.subrange(k, s.len() as int).drop_last() =~= s.drop_last().subrange(
            k,
            s.len() as int - 1,
        ));
        assert(s.subrange(k, s.len() as int).last() == s.last());
    }
}

/// Updating one slot moves the pending total by the difference of the old
/// and new contributions.
pub proof fn lemma_pending_total_update(s: Seq<UnfreedBlock>, j: int, b: UnfreedBlock)
    requires
        0 <= j < s.len(),
    ensures
        pending_total_seq(s.update(j, b)) == pending_total_seq(s) - slot_contribution(s[j])
            + slot_contribution(b),
    decreases s.len(),
{
    if j == s.len() - 1 {
        assert(s.update(j, b).drop_last() =~= s.drop_last());
        assert(s.update(j, b).last() == b);
    } else {
        lemma_pending_total_update(s.drop_last(), j, b);
        assert(s.update(j, b).drop_last() =~= s.drop_last().update(j, b));
        assert(s.update(j, b).last() == s.last());
    }
}

/// A sequence of slots that all hold nothing has pending total zero.
pub proof fn lemma_pending_total_all_empty(s: Seq<UnfreedBlock>)
    requires
        forall|i: int| 0 <= i < s.len() ==> (#[trigger] s[i]).ptr is None,
    ensures
        pending_total_seq(s) == 0,
    decreases s.len(),
{
    if s.len() > 0 {
        lemma_pending_total_all_empty(s.drop_last());
    }
}

/// When every slot below `k` holds nothing, the pending total is that of
/// the slots from `k` on.
pub proof fn lemma_pending_total_skip_empty(s: Seq<UnfreedBlock>, k: int)
    requires
        0 <= k <= s.len(),
        forall|i: int| 0 <= i < k ==> (#[trigger] s[i]).ptr is None,
    ensures
        pending_total_seq(s) == pending_total_seq(s.subrange(k, s.len() as int)),
{
    lemma_pending_total_split(s, k);
    assert forall|i: int| 0 <= i < k implies (#[trigger] s.subrange(0, k)[i]).ptr is None by {
        assert(s.subrange(0, k)[i] == s[i]);
    }
    lemma_pending_total_all_empty(s.subrange(0, k));
}

/// The allocator core.  It owns no memory itself: it tracks capacity and
/// usage, watches allocation sizes for probe-threshold matches, and decides
/// when a release triggers a flush cycle.
pub struct LabByteAllocator {
    /// Sum of the sizes of all regions ever donated.
    pub total_bytes: usize,
    /// Sum of the sizes of the live allocations known to this core.
    pub used_bytes: usize,
    /// Window cursor: probe slots with index below it are hidden from
    /// matching and from the flush sweep.
    pub offset: usize,
    /// Flush sentinel: a release of exactly this size triggers a flush.
    pub marker_size: usize,
    /// The probe thresholds, strictly increasing; every flush shifts all of
    /// them up by one.
    pub unfreed_sizes: Vec<usize>,
    /// The pending-reclaim slots, index-aligned with `unfreed_sizes`.
    pub unfreed_blocks: Vec<UnfreedBlock>,
}

impl LabByteAllocator {
    /// The probe thresholds a fresh core starts with.
    pub open spec fn initial_probe_sizes() -> Seq<usize> {
        seq![64usize, 256usize, 1024usize, 4096usize, 16384usize, 65536usize, 262144usize]
    }

    /// How far the thresholds and the sentinel have moved from their initial
    /// values; grows by one at every flush.
    pub open spec fn shift(self) -> int {
        self.marker_size - 32
    }

    /// Well-formedness: what holds of every reachable state.
    pub open spec fn wf(self) -> bool {
        &&& self.used_bytes <= self.total_bytes
        &&& self.unfreed_sizes@.len() == 7
        &&& self.unfreed_blocks@.len() == 7
        &&& 32 <= self.marker_size
        &&& (forall|i: int|
            0 <= i < 7 ==> (#[trigger] self.unfreed_sizes@[i]) == Self::initial_probe_sizes()[i]
                + self.shift())
        &&& ((self.offset == 2 && self.marker_size <= 160) || (self.offset == 0
            && self.marker_size >= 161))
        &&& (forall|i: int|
            0 <= i < 7 && (#[trigger] self.unfreed_blocks@[i]).ptr is Some ==> self.offset <= i
                && self.unfreed_blocks@[i].size == self.unfreed_sizes@[i])
    }

    /// The state a core is created in, before any region is donated.
    pub open spec fn is_fresh(self) -> bool {
        &&& self.total_bytes == 0
        &&& self.used_bytes == 0
        &&& self.offset == 2
        &&& self.marker_size == 32
        &&& self.unfreed_sizes@ == Self::initial_probe_sizes()
        &&& self.unfreed_blocks@.len() == 7
        &&& (forall|i: int| 0 <= i < 7 ==> (#[trigger] self.unfreed_blocks@[i]) == UnfreedBlock::empty())
    }

    /// Requested size `size` matches the visible probe threshold at table
    /// index `i`.
    pub open spec fn matches_at(self, size: usize, i: int) -> bool {
        &&& self.offset <= i < 7
        &&& self.unfreed_sizes@[i] == size
    }

    /// Requested size `size` matches some visible probe threshold.
    pub open spec fn is_probe_size(self, size: usize) -> bool {
        exists|i: int| self.matches_at(size, i)
    }

    /// Total bytes held by the pending-reclaim slots.
    pub open spec fn pending_total(self) -> int {
        pending_total_seq(self.unfreed_blocks@)
    }

    /// Create a fresh core: no capacity, window at 2, sentinel at 32, the
    /// initial probe thresholds, and every pending-reclaim slot empty.
    pub fn new() -> (r: Self)
        ensures
            r.is_fresh(),
            r.wf(),
    {
        let mut sizes: Vec<usize> = Vec::new();
        sizes.push(64);
        sizes.push(256);
        sizes.push(1024);
        sizes.push(4096);
        sizes.push(16384);
        sizes.push(65536);
        sizes.push(262144);
        let mut blocks: Vec<UnfreedBlock> = Vec::new();
        let mut i: usize = 0;
        while i < 7
            invariant
                i <= 7,
                blocks@.len() == i,
                forall|j: int| 0 <= j < i ==> (#[trigger] blocks@[j]) == UnfreedBlock::empty(),
            decreases 7 - i,
        {
            blocks.push(UnfreedBlock { ptr: None, size: 0, align: 0 });
            i = i + 1;
        }
        let r = LabByteAllocator {
            total_bytes: 0,
            used_bytes: 0,
            offset: 2,
            marker_size: 32,
            unfreed_sizes: sizes,
            unfreed_blocks: blocks,
        };
        proof {
            assert(r.unfreed_sizes@ =~= Self::initial_probe_sizes());
        }
        r
    }

    /// Record the one-time donation that seeds the heap: the first region's
    /// size becomes the total capacity.  The region itself is handed to the
    /// space manager by the host.
    pub fn init(&mut self, size: usize)
        requires
            old(self).is_fresh(),
        ensures
            final(self).wf(),
            final(self).total_bytes == size,
            final(self).used_bytes == 0,
            final(self).offset == old(self).offset,
            final(self).marker_size == old(self).marker_size,
            final(self).unfreed_sizes@ == old(self).unfreed_sizes@,
            final(self).unfreed_blocks@ == old(self).unfreed_blocks@,
    {
        self.total_bytes = size;
    }

    /// Record the outcome of donating one more region.  `inserted` says
    /// whether the space manager accepted the region; on acceptance the
    /// capacity grows by the region's size, on rejection nothing changes and
    /// the caller gets `InvalidParam` back.
    pub fn add_memory(&mut self, size: usize, inserted: bool) -> (r: Result<(), AllocError>)
        requires
            old(self).wf(),
            inserted ==> old(self).total_bytes + size <= usize::MAX,
        ensures
            final(self).wf(),
            inserted ==> r == Ok::<(), AllocError>(()) && final(self).total_bytes == old(
                self,
            ).total_bytes + size,
            !inserted ==> r == Err::<(), AllocError>(AllocError::InvalidParam) && *final(self)
                == *old(self),
            final(self).used_bytes == old(self).used_bytes,
            final(self).offset == old(self).offset,
            final(self).marker_size == old(self).marker_size,
            final(self).unfreed_sizes@ == old(self).unfreed_sizes@,
            final(self).unfreed_blocks@ == old(self).unfreed_blocks@,
    {
        if inserted {
            self.total_bytes = self.total_bytes + size;
            Ok(())
        } else {
            Err(AllocError::InvalidParam)
        }
    }

    /// How one successful allocation changes the core: the request for
    /// `size` bytes at alignment `align` was granted a block at `addr`.
    /// Usage grows by the size; if the size matched a visible probe
    /// threshold, that threshold's pending-reclaim slot now holds the block,
    /// overwriting whatever the slot held; nothing else changes.
    pub open spec fn alloc_step(pre: Self, size: usize, align: usize, addr: usize, post: Self) -> bool {
        &&& pre.used_bytes + size <= pre.total_bytes
        &&& post.total_bytes == pre.total_bytes
        &&& post.used_bytes == pre.used_bytes + size
        &&& post.offset == pre.offset
        &&& post.marker_size == pre.marker_size
        &&& post.unfreed_sizes@ == pre.unfreed_sizes@
        &&& post.unfreed_blocks@.len() == pre.unfreed_blocks@.len()
        &&& (forall|i: int|
            0 <= i < pre.unfreed_blocks@.len() && !pre.matches_at(size, i)
                ==> (#[trigger] post.unfreed_blocks@[i]) == pre.unfreed_blocks@[i])
        &&& (forall|i: int|
            0 <= i < pre.unfreed_blocks@.len() && pre.matches_at(size, i)
                ==> (#[trigger] post.unfreed_blocks@[i]) == (UnfreedBlock {
                ptr: Some(addr),
                size: size,
                align: align,
            }))
    }

    /// The probe thresholds of a well-formed core are strictly increasing:
    /// the uniform shift preserves the spacing of the initial values.
    pub proof fn lemma_probe_sizes_increasing(self)
        requires
            self.wf(),
        ensures
            forall|i: int, j: int|
                0 <= i < j < 7 ==> self.unfreed_sizes@[i] < self.unfreed_sizes@[j],
    {
        assert(Self::initial_probe_sizes()[0] == 64);
        assert(Self::initial_probe_sizes()[1] == 256);
        assert(Self::initial_probe_sizes()[2] == 1024);
        assert(Self::initial_probe_sizes()[3] == 4096);
        assert(Self::initial_probe_sizes()[4] == 16384);
        assert(Self::initial_probe_sizes()[5] == 65536);
        assert(Self::initial_probe_sizes()[6] == 262144);
    }

    /// A size matches at most one probe threshold.
    pub proof fn lemma_at_most_one_match(self, size: usize)
        requires
            self.wf(),
        ensures
            forall|i: int, j: int|
                self.matches_at(size, i) && self.matches_at(size, j) ==> i == j,
    {
        self.lemma_probe_sizes_increasing();
    }

    /// Find the table index of the visible probe threshold that `size`
    /// matches, if any.  The result is the threshold's own index into the
    /// full table, not its position within the visible window, so a record
    /// captured under it lands in the slot of the threshold it matched and
    /// the flush sweep over the visible slots will find it.
    fn probe_index(&self, size: usize) -> (r: Option<usize>)
        requires
            self.wf(),
        ensures
            match r {
                Some(i) => self.matches_at(size, i as int),
                None => !self.is_probe_size(size),
            },
    {
        let mut i: usize = self.offset;
        while i < 7
            invariant
                self.wf(),
                self.offset <= i <= 7,
                forall|j: int| self.offset <= j < i ==> self.unfreed_sizes@[j] != size,
            decreases 7 - i,
        {
            if self.unfreed_sizes[i] == size {
                return Some(i);
            }
            i = i + 1;
        }
        None
    }

    /// Serve one allocation request for `size` bytes at alignment `align`.
    /// `granted` is the space manager's answer: the address of a suitable
    /// free block, or nothing.  Without a block the request fails with
    /// `NoMemory` and nothing changes; with one, the block's address comes
    /// back to the caller and the core takes one `alloc_step`.
    pub fn allocate(&mut self, size: usize, align: usize, granted: Option<usize>) -> (r: Result<
        usize,
        AllocError,
    >)
        requires
            old(self).wf(),
            granted is Some ==> old(self).used_bytes + size <= old(self).total_bytes,
        ensures
            final(self).wf(),
            granted is None ==> r == Err::<usize, AllocError>(AllocError::NoMemory) && *final(self)
                == *old(self),
            granted matches Some(addr) ==> r == Ok::<usize, AllocError>(addr)
                && Self::alloc_step(*old(self), size, align, addr, *final(self)),
    {
        match granted {
            None => Err(AllocError::NoMemory),
            Some(addr) => {
                let probe = self.probe_index(size);
                self.used_bytes = self.used_bytes + size;
                if let Some(i) = probe {
                    self.unfreed_blocks[i] = UnfreedBlock { ptr: Some(addr), size: size, align: align };
                    proof {
                        old(self).lemma_at_most_one_match(size);
                    }
                }
                Ok(addr)
            },
        }
    }

    /// How a flush-triggering release changes the core.  The released size
    /// equalled the sentinel, so beyond the release itself the usage count
    /// drops by everything the pending-reclaim slots held; every slot is
    /// cleared; the window widens once, at the flush where the sentinel
    /// stands at 160; and the sentinel and all probe thresholds move up by
    /// one, keeping their spacing.
    pub open spec fn flush_step(pre: Self, size: usize, post: Self) -> bool {
        &&& size == pre.marker_size
        &&& post.total_bytes == pre.total_bytes
        &&& post.used_bytes == pre.used_bytes - size - pre.pending_total()
        &&& post.offset == (if pre.marker_size == 160 {
            0int
        } else {
            pre.offset as int
        })
        &&& post.marker_size == pre.marker_size + 1
        &&& post.unfreed_sizes@.len() == 7
        &&& (forall|i: int|
            0 <= i < 7 ==> (#[trigger] post.unfreed_sizes@[i]) == pre.unfreed_sizes@[i] + 1)
        &&& post.unfreed_blocks@.len() == 7
        &&& (forall|i: int|
            0 <= i < 7 ==> (#[trigger] post.unfreed_blocks@[i]) == UnfreedBlock::empty())
    }

    /// Record one release: the host is returning a block of `size` bytes,
    /// previously handed out by a successful allocation, to the space
    /// manager.  Usage always drops by exactly the size.  When the size
    /// equals the flush sentinel, a flush cycle runs, and the result hands
    /// back the (address, alignment) pairs of every visible pending-reclaim
    /// record, in slot order: the host must now release those blocks through
    /// the space manager as well.  Otherwise the result is empty.
    ///
    /// The preconditions are what correct use of an allocator guarantees:
    /// the released block and every pending-recorded block are distinct live
    /// allocations, so their sizes are all counted in `used_bytes`; and the
    /// thresholds have room left to shift.
    #[verifier::loop_isolation(false)]
    pub fn dealloc(&mut self, size: usize) -> (freed: Vec<(usize, usize)>)
        requires
            old(self).wf(),
            size <= old(self).used_bytes,
            size == old(self).marker_size ==> size + old(self).pending_total() <= old(
                self,
            ).used_bytes && old(self).unfreed_sizes@[6] < usize::MAX,
        ensures
            final(self).wf(),
            size != old(self).marker_size ==> ({
                &&& final(self).used_bytes == old(self).used_bytes - size
                &&& final(self).total_bytes == old(self).total_bytes
                &&& final(self).offset == old(self).offset
                &&& final(self).marker_size == old(self).marker_size
                &&& final(self).unfreed_sizes@ == old(self).unfreed_sizes@
                &&& final(self).unfreed_blocks@ == old(self).unfreed_blocks@
                &&& freed@ == Seq::<(usize, usize)>::empty()
            }),
            size == old(self).marker_size ==> Self::flush_step(*old(self), size, *final(self))
                && freed@ == flushed_records(
                old(self).unfreed_blocks@.subrange(old(self).offset as int, 7),
            ),
    {
        let ghost s0 = *old(self);
        let is_flush = size == self.marker_size;
        self.used_bytes = self.used_bytes - size;
        let mut freed: Vec<(usize, usize)> = Vec::new();
        if is_flush {
            proof {
                lemma_pending_total_skip_empty(s0.unfreed_blocks@, s0.offset as int);
                assert(s0.unfreed_blocks@.subrange(s0.offset as int, s0.offset as int)
                    =~= Seq::<UnfreedBlock>::empty());
            }
            let mut i: usize = self.offset;
            while i < 7
                invariant
                    s0.offset <= i <= 7,
                    self.total_bytes == s0.total_bytes,
                    self.offset == s0.offset,
                    self.marker_size == s0.marker_size,
                    self.unfreed_sizes@ == s0.unfreed_sizes@,
                    self.unfreed_blocks@.len() == 7,
                    forall|j: int|
                        0 <= j < 7 && !(s0.offset <= j < i) ==> (#[trigger] self.unfreed_blocks@[j])
                            == s0.unfreed_blocks@[j],
                    forall|j: int|
                        s0.offset <= j < i ==> (#[trigger] self.unfreed_blocks@[j])
                            == (UnfreedBlock {
                            ptr: None,
                            size: s0.unfreed_blocks@[j].size,
                            align: s0.unfreed_blocks@[j].align,
                        }),
                    self.used_bytes == s0.used_bytes - size - pending_total_seq(
                        s0.unfreed_blocks@.subrange(s0.offset as int, i as int),
                    ),
                    freed@ == flushed_records(
                        s0.unfreed_blocks@.subrange(s0.offset as int, i as int),
                    ),
                decreases 7 - i,
            {
                proof {
                    let done = s0.unfreed_blocks@.subrange(s0.offset as int, i as int);
                    let ext = s0.unfreed_blocks@.subrange(s0.offset as int, i as int + 1);
                    assert(ext.drop_last() =~= done);
                    assert(ext.last() == s0.unfreed_blocks@[i as int]);
                    // the current slot's contribution still fits under the
                    // usage count
                    let tail = s0.unfreed_blocks@.subrange(s0.offset as int, 7);
                    lemma_pending_total_split(tail, i - s0.offset);
                    assert(tail.subrange(0, i - s0.offset) =~= done);
                    assert(tail.subrange(i - s0.offset, tail.len() as int)
                        =~= s0.unfreed_blocks@.subrange(i as int, 7));
                    let rest = s0.unfreed_blocks@.subrange(i as int, 7);
                    lemma_pending_total_split(rest, 1);
                    assert(rest.subrange(1, rest.len() as int) =~= s0.unfreed_blocks@.subrange(
                        i as int + 1,
                        7,
                    ));
                    lemma_pending_total_nonneg(s0.unfreed_blocks@.subrange(i as int + 1, 7));
                    let single = rest.subrange(0, 1);
                    assert(single.drop_last() =~= Seq::<UnfreedBlock>::empty());
                    assert(single.last() == s0.unfreed_blocks@[i as int]);
                    assert(pending_total_seq(Seq::<UnfreedBlock>::empty()) == 0);
                    assert(pending_total_seq(single) == slot_contribution(
                        s0.unfreed_blocks@[i as int],
                    ));
                    lemma_pending_total_skip_empty(s0.unfreed_blocks@, s0.offset as int);
                    assert(pending_total_seq(rest) >= slot_contribution(
                        s0.unfreed_blocks@[i as int],
                    ));
                    assert(self.used_bytes >= slot_contribution(s0.unfreed_blocks@[i as int]));
                }
                let b = self.unfreed_blocks[i];
                if b.ptr.is_some() {
                    let p = b.ptr.unwrap();
                    freed.push((p, b.align));
                    self.used_bytes = self.used_bytes - b.size;
                }
                self.unfreed_blocks[i] = UnfreedBlock { ptr: None, size: b.size, align: b.align };
                i = i + 1;
            }
            let mut j: usize = 0;
            while j < 7
                invariant
                    j <= 7,
                    self.total_bytes == s0.total_bytes,
                    self.offset == s0.offset,
                    self.marker_size == s0.marker_size,
                    self.unfreed_sizes@ == s0.unfreed_sizes@,
                    self.used_bytes == s0.used_bytes - size - s0.pending_total(),
                    self.unfreed_blocks@.len() == 7,
                    forall|t: int|
                        0 <= t < j ==> (#[trigger] self.unfreed_blocks@[t]) == UnfreedBlock::empty(),
                    forall|t: int|
                        j <= t < 7 ==> (#[trigger] self.unfreed_blocks@[t]).ptr is None,
                decreases 7 - j,
            {
                let b = self.unfreed_blocks[j];
                self.unfreed_blocks[j] = UnfreedBlock { ptr: b.ptr, size: 0, align: 0 };
                j = j + 1;
            }
            if self.marker_size == 160 {
                self.offset = 0;
            }
            self.marker_size = self.marker_size + 1;
            proof {
                s0.lemma_probe_sizes_increasing();
            }
            let mut k: usize = 0;
            while k < 7
                invariant
                    k <= 7,
                    self.total_bytes == s0.total_bytes,
                    self.offset == (if s0.marker_size == 160 {
                        0int
                    } else {
                        s0.offset as int
                    }),
                    self.marker_size == s0.marker_size + 1,
                    self.used_bytes == s0.used_bytes - size - s0.pending_total(),
                    self.unfreed_blocks@.len() == 7,
                    forall|t: int|
                        0 <= t < 7 ==> (#[trigger] self.unfreed_blocks@[t]) == UnfreedBlock::empty(),
                    self.unfreed_sizes@.len() == 7,
                    forall|t: int|
                        0 <= t < k ==> (#[trigger] self.unfreed_sizes@[t]) == s0.unfreed_sizes@[t]
                            + 1,
                    forall|t: int|
                        k <= t < 7 ==> (#[trigger] self.unfreed_sizes@[t]) == s0.unfreed_sizes@[t],
                decreases 7 - k,
            {
                let v = self.unfreed_sizes[k];
                proof {
                    if k < 6 {
                        assert(s0.unfreed_sizes@[k as int] < s0.unfreed_sizes@[6]);
                    }
                    assert(s0.unfreed_sizes@[6] == Self::initial_probe_sizes()[6] + s0.shift());
                }
                self.unfreed_sizes[k] = v + 1;
                k = k + 1;
            }
            proof {
                lemma_pending_total_nonneg(s0.unfreed_blocks@);
            }
        }
        freed
    }

    /// Total capacity: the sum of all donated region sizes.
    pub fn total_bytes(&self) -> (r: usize)
        ensures
            r == self.total_bytes,
    {
        self.total_bytes
    }

    /// Bytes of live allocations known to this core.
    pub fn used_bytes(&self) -> (r: usize)
        ensures
            r == self.used_bytes,
    {
        self.used_bytes
    }

    /// Bytes still available: capacity not taken by live allocations.
    pub fn available_bytes(&self) -> (r: usize)
        requires
            self.wf(),
        ensures
            r == self.total_bytes - self.used_bytes,
    {
        self.total_bytes - self.used_bytes
    }
}

} // verus!
