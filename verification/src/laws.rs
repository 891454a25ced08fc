//! Laws of the allocator core, proved once for all states.
//!
//! The single-operation laws (accounting, threshold shift, window
//! transition) are stated over the step relations that the operations'
//! own postconditions establish; the flush-reclamation law chains a whole
//! run of allocations and one flushing release.

use vstd::prelude::*;
use crate::byte_allocator::LabByteAllocator;
use crate::byte_allocator::UnfreedBlock;
use crate::byte_allocator::lemma_pending_total_all_empty;
use crate::byte_allocator::lemma_pending_total_update;
use crate::byte_allocator::pending_total_seq;
use crate::byte_allocator::slot_contribution;

verus! {

/// Capacity invariant: in every well-formed state the live bytes never
/// exceed the donated bytes.
pub proof fn lemma_capacity_invariant(a: LabByteAllocator)
    requires
        a.wf(),
    ensures
        a.used_bytes <= a.total_bytes,
{
}

/// Accounting: one successful allocation grows the usage count by exactly
/// the requested size.  (One release shrinks it by exactly the released
/// size before any flush effects: that is stated directly in the release
/// operation's postcondition.)
pub proof fn lemma_accounting(
    pre: LabByteAllocator,
    size: usize,
    align: usize,
    addr: usize,
    post: LabByteAllocator,
)
    requires
        LabByteAllocator::alloc_step(pre, size, align, addr, post),
    ensures
        post.used_bytes == pre.used_bytes + size,
{
}

/// Threshold shift: a flush moves the sentinel and every probe threshold up
/// by exactly one, and afterwards every threshold still stands at its
/// initial value plus the common shift, so the spacing between the
/// thresholds and the sentinel never changes.
pub proof fn lemma_flush_shift(pre: LabByteAllocator, size: usize, post: LabByteAllocator)
    requires
        pre.wf(),
        LabByteAllocator::flush_step(pre, size, post),
    ensures
        post.marker_size == pre.marker_size + 1,
        forall|i: int|
            0 <= i < 7 ==> (#[trigger] post.unfreed_sizes@[i]) == pre.unfreed_sizes@[i] + 1,
        forall|i: int|
            0 <= i < 7 ==> (#[trigger] post.unfreed_sizes@[i])
                == LabByteAllocator::initial_probe_sizes()[i] + (post.marker_size - 32),
{
}

/// Window transition: the cursor starts at 2 and moves to 0 exactly at the
/// flush where the sentinel stands at 160; it never takes another value and
/// never moves back.
pub proof fn lemma_window_transition(pre: LabByteAllocator, size: usize, post: LabByteAllocator)
    requires
        pre.wf(),
        LabByteAllocator::flush_step(pre, size, post),
    ensures
        pre.marker_size == 160 ==> pre.offset == 2 && post.offset == 0,
        pre.marker_size != 160 ==> post.offset == pre.offset,
        pre.marker_size < 160 ==> post.offset == 2,
        pre.marker_size > 160 ==> pre.offset == 0 && post.offset == 0,
        post.offset == 0 || post.offset == 2,
{
}

/// Sum of the sizes in a run of allocation requests, each request a
/// (size, alignment, address) triple.
pub open spec fn sizes_total(reqs: Seq<(usize, usize, usize)>) -> int
    decreases reqs.len(),
{
    if reqs.len() == 0 {
        0
    } else {
        sizes_total(reqs.drop_last()) + reqs.last().0
    }
}

/// A run of allocations whose sizes are pairwise distinct and each match a
/// visible probe threshold, starting from a state with every
/// pending-reclaim slot empty, fills one slot per request: the usage count
/// and the pending total both grow by exactly the sum of the requested
/// sizes, and nothing else moves.
pub proof fn lemma_alloc_run(states: Seq<LabByteAllocator>, reqs: Seq<(usize, usize, usize)>)
    requires
        states.len() == reqs.len() + 1,
        states[0].wf(),
        forall|i: int| 0 <= i < 7 ==> (#[trigger] states[0].unfreed_blocks@[i]).ptr is None,
        forall|k: int| 0 <= k < reqs.len() ==> states[0].is_probe_size((#[trigger] reqs[k]).0),
        forall|k1: int, k2: int| 0 <= k1 < k2 < reqs.len() ==> reqs[k1].0 != reqs[k2].0,
        forall|k: int|
            0 <= k < reqs.len() ==> LabByteAllocator::alloc_step(
                states[k],
                (#[trigger] reqs[k]).0,
                reqs[k].1,
                reqs[k].2,
                states[k + 1],
            ),
    ensures
        states.last().wf(),
        states.last().total_bytes == states[0].total_bytes,
        states.last().offset == states[0].offset,
        states.last().marker_size == states[0].marker_size,
        states.last().unfreed_sizes@ == states[0].unfreed_sizes@,
        states.last().used_bytes == states[0].used_bytes + sizes_total(reqs),
        states.last().pending_total() == sizes_total(reqs),
        forall|i: int|
            0 <= i < 7 ==> ((#[trigger] states.last().unfreed_blocks@[i]).ptr is Some
                <==> exists|k: int|
                0 <= k < reqs.len() && states[0].matches_at((#[trigger] reqs[k]).0, i)),
    decreases reqs.len(),
{
    if reqs.len() == 0 {
        assert(states.last() == states[0]);
        lemma_pending_total_all_empty(states[0].unfreed_blocks@);
    } else {
        let n = reqs.len() as int;
        let prefix = reqs.drop_last();
        let chain = states.drop_last();
        assert forall|k: int| 0 <= k < prefix.len() implies LabByteAllocator::alloc_step(
            chain[k],
            (#[trigger] prefix[k]).0,
            prefix[k].1,
            prefix[k].2,
            chain[k + 1],
        ) by {
            assert(prefix[k] == reqs[k]);
            assert(chain[k] == states[k]);
            assert(chain[k + 1] == states[k + 1]);
        }
        lemma_alloc_run(chain, prefix);
        let pre = states[n - 1];
        let post = states[n];
        assert(chain.last() == pre);
        assert(states.last() == post);
        let size = reqs[n - 1].0;
        assert(LabByteAllocator::alloc_step(pre, size, reqs[n - 1].1, reqs[n - 1].2, post));
        // the matched slot is the same in `pre` as in the start state, since
        // the window and the thresholds have not moved
        assert(states[0].is_probe_size(size));
        let target = choose|i: int| states[0].matches_at(size, i);
        assert(states[0].matches_at(size, target));
        states[0].lemma_at_most_one_match(size);
        // the slot the request lands in was still empty
        assert(pre.unfreed_blocks@[target].ptr is None) by {
            if pre.unfreed_blocks@[target].ptr is Some {
                let k = choose|k: int|
                    0 <= k < prefix.len() && states[0].matches_at(prefix[k].0, target);
                assert(states[0].matches_at(reqs[k].0, target));
                assert(states[0].unfreed_sizes@[target] == reqs[k].0);
                assert(reqs[k].0 == size);
            }
        }
        let filled = UnfreedBlock { ptr: Some(reqs[n - 1].2), size: size, align: reqs[n - 1].1 };
        assert(post.unfreed_blocks@ =~= pre.unfreed_blocks@.update(target, filled)) by {
            assert forall|i: int| 0 <= i < 7 implies post.unfreed_blocks@[i]
                == pre.unfreed_blocks@.update(target, filled)[i] by {
                if i == target {
                    assert(pre.matches_at(size, i));
                } else {
                    assert(!pre.matches_at(size, i));
                }
            }
        }
        lemma_pending_total_update(pre.unfreed_blocks@, target, filled);
        assert(slot_contribution(pre.unfreed_blocks@[target]) == 0);
        assert(post.pending_total() == pre.pending_total() + size);
        assert(sizes_total(reqs) == sizes_total(prefix) + size);
        // which slots hold a block after the whole run
        assert forall|i: int| 0 <= i < 7 implies ((#[trigger] post.unfreed_blocks@[i]).ptr is Some
            <==> exists|k: int|
            0 <= k < reqs.len() && states[0].matches_at((#[trigger] reqs[k]).0, i)) by {
            if i == target {
                assert(states[0].matches_at(reqs[n - 1].0, i));
            } else {
                assert(post.unfreed_blocks@[i] == pre.unfreed_blocks@[i]);
                if exists|k: int| 0 <= k < reqs.len() && states[0].matches_at(reqs[k].0, i) {
                    let k = choose|k: int|
                        0 <= k < reqs.len() && states[0].matches_at(reqs[k].0, i);
                    if k == n - 1 {
                        assert(states[0].matches_at(size, i) && states[0].matches_at(size, target));
                        assert(false);
                    } else {
                        assert(states[0].matches_at(prefix[k].0, i));
                    }
                } else {
                    if pre.unfreed_blocks@[i].ptr is Some {
                        let k = choose|k: int|
                            0 <= k < prefix.len() && states[0].matches_at(prefix[k].0, i);
                        assert(states[0].matches_at(reqs[k].0, i));
                    }
                }
            }
        }
    }
}

/// Flush reclamation: start with every pending-reclaim slot empty, allocate
/// a run of blocks whose sizes are pairwise distinct and each match a
/// visible probe threshold (never releasing them directly), then allocate
/// and release one block of the sentinel's size.  The release flushes every
/// captured block, and the usage count returns to exactly what it was
/// before the run.
///
/// The distinctness requirement is essential: a second allocation of the
/// same probe size overwrites the slot, the block recorded first is never
/// flushed, and the usage count stays above its starting value.
pub proof fn lemma_flush_reclaims(
    states: Seq<LabByteAllocator>,
    reqs: Seq<(usize, usize, usize)>,
    sentinel_align: usize,
    sentinel_addr: usize,
    holding: LabByteAllocator,
    done: LabByteAllocator,
)
    requires
        states.len() == reqs.len() + 1,
        states[0].wf(),
        forall|i: int| 0 <= i < 7 ==> (#[trigger] states[0].unfreed_blocks@[i]).ptr is None,
        forall|k: int| 0 <= k < reqs.len() ==> states[0].is_probe_size((#[trigger] reqs[k]).0),
        forall|k1: int, k2: int| 0 <= k1 < k2 < reqs.len() ==> reqs[k1].0 != reqs[k2].0,
        forall|k: int|
            0 <= k < reqs.len() ==> LabByteAllocator::alloc_step(
                states[k],
                (#[trigger] reqs[k]).0,
                reqs[k].1,
                reqs[k].2,
                states[k + 1],
            ),
        LabByteAllocator::alloc_step(
            states.last(),
            states[0].marker_size,
            sentinel_align,
            sentinel_addr,
            holding,
        ),
        LabByteAllocator::flush_step(holding, states[0].marker_size, done),
    ensures
        done.used_bytes == states[0].used_bytes,
{
    lemma_alloc_run(states, reqs);
    let last = states.last();
    let sentinel = states[0].marker_size;
    // the sentinel's size matches no probe threshold: every threshold sits
    // at least 32 above the sentinel, at any shift
    assert forall|i: int| !last.matches_at(sentinel, i) by {
        if 0 <= i < 7 {
            last.lemma_probe_sizes_increasing();
            assert(last.unfreed_sizes@[0] == LabByteAllocator::initial_probe_sizes()[0]
                + last.shift());
            if i > 0 {
                assert(last.unfreed_sizes@[0] < last.unfreed_sizes@[i]);
            }
        }
    }
    assert(holding.unfreed_blocks@ =~= last.unfreed_blocks@);
    assert(pending_total_seq(holding.unfreed_blocks@) == pending_total_seq(last.unfreed_blocks@));
}

} // verus!
