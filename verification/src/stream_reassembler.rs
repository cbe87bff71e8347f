//! Reassembles out-of-order, possibly overlapping byte ranges of a
//! logical stream into its downstream `ByteStream`.
//!
//! A byte at absolute index `j` is acceptable while `head_index <= j <
//! head_index + capacity`; stale and out-of-window bytes are discarded.
//! Where two pushes disagree on a byte, the byte stored first wins, so
//! re-delivery never corrupts the stream. Whenever the pending bytes
//! form a contiguous run at `head_index`, the run is flushed into the
//! downstream stream as far as that stream has room.
//!
//! The abstract state is a `ReassemblerModel`; `spec_push` is the full
//! transition function of `push_substring`, and the lemmas at the end
//! of this file state the idempotence of pushing and the contiguity of
//! what has been delivered.

use vstd::prelude::*;

verus! {

use vstd::math::min;
use vstd::set_lib::lemma_set_empty_equivalency_len;
use crate::byte_stream::ByteStream;

/// The abstract state of a reassembler: the delivery head, the pending
/// bytes keyed by absolute index, every byte ever accepted (`seen`,
/// first write wins), the bytes delivered downstream so far, and the
/// downstream stream's read count and end-of-input flag.
#[verifier::ext_equal]
pub struct ReassemblerModel {
    pub head: int,
    pub capacity: int,
    pub out_read: int,
    pub pending: Map<int, u8>,
    pub seen: Map<int, u8>,
    pub delivered: Seq<u8>,
    pub eof_flag: bool,
    pub out_ended: bool,
}

/// The bytes of `data` (placed at absolute index `index`) that fall in
/// the acceptance window `[head, head + cap)`, keyed by absolute index.
pub open spec fn clip(data: Seq<u8>, index: int, head: int, cap: int) -> Map<int, u8> {
    Map::new(
        |j: int| index <= j < index + data.len() && head <= j && j < head + cap,
        |j: int| data[j - index],
    )
}

/// True iff no byte of `data` at `index` falls in the window.
pub open spec fn clip_empty(len: int, index: int, head: int, cap: int) -> bool {
    len <= 0 || cap <= 0 || index + len <= head || index >= head + cap
}

/// The length of the contiguous run of keys of `m` starting at `start`,
/// capped at `bound`.
pub open spec fn contiguous_run(m: Map<int, u8>, start: int, bound: nat) -> nat
    decreases bound,
{
    if bound == 0 {
        0
    } else if m.dom().contains(start) {
        (1 + contiguous_run(m, start + 1, (bound - 1) as nat)) as nat
    } else {
        0
    }
}

/// Latches the EOF flag and, once it is set and nothing is pending,
/// ends the downstream stream's input.
pub open spec fn latch_eof(m: ReassemblerModel, eof: bool) -> ReassemblerModel {
    ReassemblerModel {
        eof_flag: m.eof_flag || eof,
        out_ended: m.out_ended || ((m.eof_flag || eof) && m.pending.dom().is_empty()),
        ..m
    }
}

/// The map of bytes pending after the push but before the flush: the
/// clipped new bytes joined with those already stored, stored first.
pub open spec fn push_combined(m: ReassemblerModel, data: Seq<u8>, index: int) -> Map<int, u8> {
    clip(data, index, m.head, m.capacity).union_prefer_right(m.pending)
}

/// How many bytes the flush after a push delivers: the contiguous run
/// at the head, capped by the downstream stream's free room.
pub open spec fn push_flush_count(m: ReassemblerModel, data: Seq<u8>, index: int) -> int {
    min(
        contiguous_run(push_combined(m, data, index), m.head, m.capacity as nat) as int,
        m.capacity - (m.head - m.out_read),
    )
}

/// The full effect of `push_substring(data, index, eof)` on the
/// abstract state.
pub open spec fn spec_push(m: ReassemblerModel, data: Seq<u8>, index: int, eof: bool)
    -> ReassemblerModel {
    if clip_empty(data.len() as int, index, m.head, m.capacity) {
        latch_eof(m, eof)
    } else {
        let combined = push_combined(m, data, index);
        let cnt = push_flush_count(m, data, index);
        let flushed = ReassemblerModel {
            head: m.head + cnt,
            capacity: m.capacity,
            out_read: m.out_read,
            pending: combined.remove_keys(Set::new(|j: int| m.head <= j < m.head + cnt)),
            seen: clip(data, index, m.head, m.capacity).union_prefer_right(m.seen),
            delivered: m.delivered + Seq::new(cnt as nat, |k: int| combined[m.head + k]),
            eof_flag: m.eof_flag,
            out_ended: m.out_ended,
        };
        latch_eof(flushed, eof)
    }
}

/// The invariant of every reachable abstract state: the window bounds
/// the pending bytes, delivery agrees byte for byte with what was first
/// pushed, and nothing at or past the head was accepted without being
/// kept.
pub open spec fn inv(m: ReassemblerModel) -> bool {
    &&& 0 <= m.out_read <= m.head
    &&& m.capacity >= 0
    &&& m.head - m.out_read <= m.capacity
    &&& m.delivered.len() == m.head
    &&& forall|j: int| #[trigger] m.pending.dom().contains(j) ==> m.head <= j < m.head + m.capacity
    &&& forall|j: int| #[trigger] m.pending.dom().contains(j)
        ==> m.seen.dom().contains(j) && m.pending[j] == m.seen[j]
    &&& forall|j: int| 0 <= j < m.head ==> #[trigger] m.seen.dom().contains(j)
    &&& forall|j: int| 0 <= j < m.head ==> m.delivered[j] == #[trigger] m.seen[j]
    &&& forall|j: int| #[trigger] m.seen.dom().contains(j) ==> 0 <= j < m.head + m.capacity
    &&& forall|j: int| #[trigger] m.seen.dom().contains(j) && j >= m.head
        ==> m.pending.dom().contains(j)
}

#[verifier::inline]
pub open spec fn slot_is(s: Seq<Option<u8>>, k: int) -> bool {
    s[k] is Some
}

#[verifier::inline]
pub open spec fn slot_val(s: Seq<Option<u8>>, k: int) -> u8 {
    s[k]->0
}

/// The pending-byte map represented by a slot array anchored at `head`.
pub open spec fn slots_map(s: Seq<Option<u8>>, head: int) -> Map<int, u8> {
    Map::new(
        |j: int| head <= j < head + s.len() && slot_is(s, j - head),
        |j: int| slot_val(s, j - head),
    )
}

/// How many slots hold a byte.
pub open spec fn count_some(s: Seq<Option<u8>>) -> nat
    decreases s.len(),
{
    if s.len() == 0 {
        0
    } else {
        (count_some(s.drop_first()) + (if slot_is(s, 0) { 1 as int } else { 0 })) as nat
    }
}

proof fn lemma_count_some_le(s: Seq<Option<u8>>)
    ensures
        count_some(s) <= s.len(),
    decreases s.len(),
{
    if s.len() > 0 {
        lemma_count_some_le(s.drop_first());
    }
}

proof fn lemma_count_some_update(s: Seq<Option<u8>>, k: int, b: u8)
    requires
        0 <= k < s.len(),
        !slot_is(s, k),
    ensures
        count_some(s.update(k, Some(b))) == count_some(s) + 1,
    decreases s.len(),
{
    let t = s.update(k, Some(b));
    if k == 0 {
        assert(t.drop_first() =~= s.drop_first());
    } else {
        assert(t.drop_first() =~= s.drop_first().update(k - 1, Some(b)));
        lemma_count_some_update(s.drop_first(), k - 1, b);
    }
}

proof fn lemma_count_some_add(s: Seq<Option<u8>>, t: Seq<Option<u8>>)
    ensures
        count_some(s + t) == count_some(s) + count_some(t),
    decreases s.len(),
{
    if s.len() == 0 {
        assert(s + t =~= t);
    } else {
        assert((s + t).drop_first() =~= s.drop_first() + t);
        assert(slot_is(s + t, 0) == slot_is(s, 0));
        lemma_count_some_add(s.drop_first(), t);
    }
}

proof fn lemma_count_some_all_some(s: Seq<Option<u8>>)
    requires
        forall|k: int| 0 <= k < s.len() ==> slot_is(s, k),
    ensures
        count_some(s) == s.len(),
    decreases s.len(),
{
    if s.len() > 0 {
        assert forall|k: int| 0 <= k < s.drop_first().len() implies slot_is(s.drop_first(), k) by {
            assert(s.drop_first()[k] == s[k + 1]);
            assert(slot_is(s, k + 1));
        }
        lemma_count_some_all_some(s.drop_first());
    }
}

proof fn lemma_count_some_all_none(s: Seq<Option<u8>>)
    requires
        forall|k: int| 0 <= k < s.len() ==> !slot_is(s, k),
    ensures
        count_some(s) == 0,
    decreases s.len(),
{
    if s.len() > 0 {
        assert forall|k: int| 0 <= k < s.drop_first().len() implies !slot_is(s.drop_first(), k) by {
            assert(s.drop_first()[k] == s[k + 1]);
        }
        lemma_count_some_all_none(s.drop_first());
    }
}

proof fn lemma_contiguous_run_eq(m: Map<int, u8>, start: int, bound: nat, run: nat)
    requires
        run <= bound,
        forall|k: int| 0 <= k < run ==> #[trigger] m.dom().contains(start + k),
        run == bound || !m.dom().contains(start + run),
    ensures
        contiguous_run(m, start, bound) == run,
    decreases bound,
{
    if bound != 0 {
        if run == 0 {
            assert(!m.dom().contains(start));
        } else {
            assert(m.dom().contains(start + 0));
            assert forall|k: int| 0 <= k < run - 1 implies #[trigger] m.dom().contains(start + 1 + k) by {
                assert(m.dom().contains(start + (k + 1)));
            }
            lemma_contiguous_run_eq(m, start + 1, (bound - 1) as nat, (run - 1) as nat);
        }
    }
}

proof fn lemma_run_le(m: Map<int, u8>, start: int, bound: nat)
    ensures
        contiguous_run(m, start, bound) <= bound,
    decreases bound,
{
    if bound != 0 && m.dom().contains(start) {
        lemma_run_le(m, start + 1, (bound - 1) as nat);
    }
}

proof fn lemma_run_covered(m: Map<int, u8>, start: int, bound: nat)
    ensures
        forall|k: int| 0 <= k < contiguous_run(m, start, bound)
            ==> #[trigger] m.dom().contains(start + k),
    decreases bound,
{
    if bound != 0 && m.dom().contains(start) {
        lemma_run_covered(m, start + 1, (bound - 1) as nat);
        assert forall|k: int| 0 <= k < contiguous_run(m, start, bound)
            implies #[trigger] m.dom().contains(start + k) by {
            if k > 0 {
                assert(m.dom().contains(start + 1 + (k - 1)));
            }
        }
    }
}

/// The invariant does not depend on the EOF flags: any state with the
/// same head, window, maps and delivery satisfies it too.
proof fn lemma_inv_core(m1: ReassemblerModel, m2: ReassemblerModel)
    requires
        inv(m1),
        m2.head == m1.head,
        m2.capacity == m1.capacity,
        0 <= m2.out_read <= m2.head,
        m2.head - m2.out_read <= m2.capacity,
        m2.pending == m1.pending,
        m2.seen == m1.seen,
        m2.delivered == m1.delivered,
    ensures
        inv(m2),
{
    assert forall|j: int| #[trigger] m2.pending.dom().contains(j)
        implies m2.head <= j < m2.head + m2.capacity
            && m2.seen.dom().contains(j) && m2.pending[j] == m2.seen[j] by {
        assert(m1.pending.dom().contains(j));
    }
    assert forall|j: int| 0 <= j < m2.head implies m2.seen.dom().contains(j) by {
        assert(m1.seen.dom().contains(j));
    }
    assert forall|j: int| 0 <= j < m2.head implies m2.delivered[j] == m2.seen[j] by {
        assert(m1.seen.dom().contains(j));
        assert(m1.delivered[j] == m1.seen[j]);
    }
    assert forall|j: int| #[trigger] m2.seen.dom().contains(j)
        implies 0 <= j < m2.head + m2.capacity by {
        assert(m1.seen.dom().contains(j));
    }
    assert forall|j: int| #[trigger] m2.seen.dom().contains(j) && j >= m2.head
        implies m2.pending.dom().contains(j) by {
        assert(m1.seen.dom().contains(j));
    }
}

/// Pushing preserves the reassembler invariant.
pub proof fn lemma_push_preserves_inv(m: ReassemblerModel, data: Seq<u8>, index: int, eof: bool)
    requires
        inv(m),
    ensures
        inv(spec_push(m, data, index, eof)),
{
    if clip_empty(data.len() as int, index, m.head, m.capacity) {
        lemma_inv_core(m, spec_push(m, data, index, eof));
    } else {
        let combined = push_combined(m, data, index);
        let cnt = push_flush_count(m, data, index);
        let run = contiguous_run(combined, m.head, m.capacity as nat);
        lemma_run_le(combined, m.head, m.capacity as nat);
        lemma_run_covered(combined, m.head, m.capacity as nat);
        let flushed = ReassemblerModel {
            head: m.head + cnt,
            capacity: m.capacity,
            out_read: m.out_read,
            pending: combined.remove_keys(Set::new(|j: int| m.head <= j < m.head + cnt)),
            seen: clip(data, index, m.head, m.capacity).union_prefer_right(m.seen),
            delivered: m.delivered + Seq::new(cnt as nat, |k: int| combined[m.head + k]),
            eof_flag: m.eof_flag,
            out_ended: m.out_ended,
        };
        assert(0 <= cnt <= run);
        assert(cnt <= m.capacity - (m.head - m.out_read));
        assert forall|j: int| #[trigger] flushed.pending.dom().contains(j)
            implies flushed.head <= j < flushed.head + flushed.capacity
                && flushed.seen.dom().contains(j)
                && flushed.pending[j] == flushed.seen[j] by {
            assert(combined.dom().contains(j));
            lemma_combined_seen(m, data, index, j);
        }
        assert forall|j: int| 0 <= j < flushed.head
            implies flushed.seen.dom().contains(j) by {
            if j < m.head {
                assert(m.seen.dom().contains(j));
                assert(!clip(data, index, m.head, m.capacity).dom().contains(j));
            } else {
                assert(combined.dom().contains(m.head + (j - m.head)));
                assert(combined.dom().contains(j));
                lemma_combined_seen(m, data, index, j);
            }
        }
        assert forall|j: int| 0 <= j < flushed.head
            implies flushed.delivered[j] == flushed.seen[j] by {
            if j < m.head {
                assert(m.seen.dom().contains(j));
                assert(m.delivered[j] == m.seen[j]);
                assert(flushed.delivered[j] == m.delivered[j]);
                assert(!clip(data, index, m.head, m.capacity).dom().contains(j));
                assert(flushed.seen[j] == m.seen[j]);
            } else {
                assert(combined.dom().contains(m.head + (j - m.head)));
                assert(combined.dom().contains(j));
                lemma_combined_seen(m, data, index, j);
                assert(flushed.delivered[j] == combined[j]);
            }
        }
        assert forall|j: int| #[trigger] flushed.seen.dom().contains(j)
            implies 0 <= j < flushed.head + flushed.capacity by {
            if m.seen.dom().contains(j) {
            } else {
                assert(clip(data, index, m.head, m.capacity).dom().contains(j));
            }
        }
        assert forall|j: int| #[trigger] flushed.seen.dom().contains(j) && j >= flushed.head
            implies flushed.pending.dom().contains(j) by {
            if m.seen.dom().contains(j) {
                assert(m.pending.dom().contains(j));
                assert(combined.dom().contains(j));
            } else {
                assert(clip(data, index, m.head, m.capacity).dom().contains(j));
                assert(combined.dom().contains(j));
            }
        }
        assert(inv(flushed));
        lemma_inv_core(flushed, spec_push(m, data, index, eof));
    }
}


/// One insertion step: writing the byte at absolute index `index + k`
/// into its slot (only when the slot is free) extends the represented
/// map by exactly that byte of the clip.
proof fn lemma_insert_step(
    sl0: Seq<Option<u8>>,
    sl1: Seq<Option<u8>>,
    data: Seq<u8>,
    index: int,
    m0: ReassemblerModel,
    k: int,
)
    requires
        sl0.len() == m0.capacity,
        slots_map(sl0, m0.head) == partial_map(data, index, m0, index + k),
        0 <= k < data.len(),
        index + k >= m0.head,
        index + k < m0.head + m0.capacity,
        sl1 == if slot_is(sl0, index + k - m0.head) {
            sl0
        } else {
            sl0.update(index + k - m0.head, Some(data[k]))
        },
    ensures
        slots_map(sl1, m0.head) == partial_map(data, index, m0, index + k + 1),
{
    let h = m0.head;
    let upd = index + k;
    let s = upd - h;
    let sm0 = slots_map(sl0, h);
    let sm1 = slots_map(sl1, h);
    let pm_old = partial_map(data, index, m0, upd);
    let pm_new = partial_map(data, index, m0, upd + 1);
    assert(sl1.len() == sl0.len());
    assert forall|jj: int| #[trigger] sm1.dom().contains(jj)
        implies pm_new.dom().contains(jj) by {
        if jj != upd {
            assert(sl1[jj - h] == sl0[jj - h]);
            assert(sm0.dom().contains(jj));
            assert(pm_old.dom().contains(jj));
        }
    }
    assert forall|jj: int| #[trigger] pm_new.dom().contains(jj)
        implies sm1.dom().contains(jj) by {
        if jj == upd {
            assert(slot_is(sl1, s));
        } else {
            assert(pm_old.dom().contains(jj));
            assert(sm0.dom().contains(jj));
            assert(slot_is(sl0, jj - h));
            assert(sl1[jj - h] == sl0[jj - h]);
        }
    }
    assert forall|jj: int| #[trigger] sm1.dom().contains(jj)
        implies sm1[jj] == pm_new[jj] by {
        if jj == upd {
            if slot_is(sl0, s) {
                assert(sm0.dom().contains(jj));
                assert(pm_old.dom().contains(jj));
                assert(m0.pending.dom().contains(jj));
                assert(pm_new[jj] == m0.pending[jj]);
                assert(pm_old[jj] == m0.pending[jj]);
                assert(sm1[jj] == sm0[jj]);
            } else {
                assert(!sm0.dom().contains(jj));
                assert(!m0.pending.dom().contains(jj)) by {
                    if m0.pending.dom().contains(jj) {
                        assert(pm_old.dom().contains(jj));
                        assert(sm0.dom().contains(jj));
                    }
                }
                assert(slot_val(sl1, s) == data[k]);
                assert(pm_new[jj] == data[jj - index]);
            }
        } else {
            assert(sl1[jj - h] == sl0[jj - h]);
            assert(sm0.dom().contains(jj));
            assert(sm1[jj] == sm0[jj]);
            assert(pm_old.dom().contains(jj));
            assert(sm0[jj] == pm_old[jj]);
            if m0.pending.dom().contains(jj) {
                assert(pm_old[jj] == m0.pending[jj]);
                assert(pm_new[jj] == m0.pending[jj]);
            } else {
                assert(pm_old[jj] == data[jj - index]);
                assert(pm_new[jj] == data[jj - index]);
            }
        }
    }
    assert(sm1 =~= pm_new);
}

proof fn lemma_run_stop(m: Map<int, u8>, start: int, bound: nat)
    requires
        contiguous_run(m, start, bound) < bound,
    ensures
        !m.dom().contains(start + contiguous_run(m, start, bound)),
    decreases bound,
{
    if bound != 0 && m.dom().contains(start) {
        lemma_run_stop(m, start + 1, (bound - 1) as nat);
    }
}

/// Pushing the same `(data, index, eof)` twice has the same effect as
/// pushing it once, as long as the data does not reach past the current
/// acceptance window (or the head does not move): nothing the second
/// call offers is new.
pub proof fn lemma_push_idempotent(m: ReassemblerModel, data: Seq<u8>, index: int, eof: bool)
    requires
        inv(m),
        index + data.len() <= m.head + m.capacity
            || spec_push(m, data, index, eof).head == m.head,
    ensures
        spec_push(spec_push(m, data, index, eof), data, index, eof)
            == spec_push(m, data, index, eof),
{
    let m1 = spec_push(m, data, index, eof);
    lemma_push_preserves_inv(m, data, index, eof);
    if clip_empty(data.len() as int, index, m.head, m.capacity) {
        assert(clip_empty(data.len() as int, index, m1.head, m1.capacity));
        assert(spec_push(m1, data, index, eof) =~= m1);
    } else {
        let combined = push_combined(m, data, index);
        let cnt = push_flush_count(m, data, index);
        let run = contiguous_run(combined, m.head, m.capacity as nat);
        let free = m.capacity - (m.head - m.out_read);
        lemma_run_le(combined, m.head, m.capacity as nat);
        assert(m1.head == m.head + cnt);
        assert(m1.capacity == m.capacity);
        assert(m1.out_read == m.out_read);
        assert forall|j: int| #[trigger] combined.dom().contains(j)
            implies m.head <= j < m.head + m.capacity by {
            if m.pending.dom().contains(j) {
            } else {
                assert(clip(data, index, m.head, m.capacity).dom().contains(j));
            }
        }
        if clip_empty(data.len() as int, index, m1.head, m1.capacity) {
            assert(spec_push(m1, data, index, eof) == latch_eof(m1, eof));
            assert(latch_eof(m1, eof) =~= m1);
        } else {
            let c2 = clip(data, index, m1.head, m1.capacity);
            let combined2 = push_combined(m1, data, index);
            assert forall|j: int| #[trigger] combined2.dom().contains(j)
                implies m1.pending.dom().contains(j)
                    && combined2[j] == m1.pending[j] by {
                if !m1.pending.dom().contains(j) {
                    assert(c2.dom().contains(j));
                    assert(index <= j < index + data.len());
                    assert(m1.head <= j);
                    assert(j < m.head + m.capacity);
                    assert(clip(data, index, m.head, m.capacity).dom().contains(j));
                    assert(combined.dom().contains(j));
                    assert(m1.pending.dom().contains(j));
                }
            }
            assert(combined2 =~= m1.pending);
            assert forall|j: int| #[trigger] c2.dom().contains(j)
                implies m1.seen.dom().contains(j) by {
                assert(combined2.dom().contains(j));
                assert(m1.pending.dom().contains(j));
            }
            assert(c2.union_prefer_right(m1.seen) =~= m1.seen);
            let free2 = m1.capacity - (m1.head - m1.out_read);
            let cnt2 = push_flush_count(m1, data, index);
            if cnt == free {
                assert(free2 == 0);
                assert(contiguous_run(combined2, m1.head, m1.capacity as nat) >= 0);
                assert(cnt2 == 0);
            } else {
                assert(cnt == run);
                assert(!m1.pending.dom().contains(m1.head)) by {
                    if m1.pending.dom().contains(m1.head) {
                        assert(combined.dom().contains(m.head + run));
                        assert(m.head + run < m.head + m.capacity);
                        assert(run < m.capacity);
                        lemma_run_stop(combined, m.head, m.capacity as nat);
                    }
                }
                assert(!combined2.dom().contains(m1.head));
                assert(contiguous_run(combined2, m1.head, m1.capacity as nat) == 0);
                assert(cnt2 == 0);
            }
            let flushed2 = ReassemblerModel {
                head: m1.head + cnt2,
                capacity: m1.capacity,
                out_read: m1.out_read,
                pending: combined2.remove_keys(
                    Set::new(|j: int| m1.head <= j < m1.head + cnt2),
                ),
                seen: c2.union_prefer_right(m1.seen),
                delivered: m1.delivered + Seq::new(cnt2 as nat, |k: int| combined2[m1.head + k]),
                eof_flag: m1.eof_flag,
                out_ended: m1.out_ended,
            };
            assert(spec_push(m1, data, index, eof) == latch_eof(flushed2, eof));
            assert(flushed2.pending =~= m1.pending);
            assert(flushed2.delivered =~= m1.delivered);
            assert(flushed2.seen =~= m1.seen);
            assert(latch_eof(flushed2, eof) =~= m1);
        }
    }
}

/// Contiguity of delivery: everything the downstream stream has ever
/// received is exactly the bytes at absolute indices `[0, head)` of the
/// logical stream, each one as it was first pushed (`seen`), and every
/// one of those indices was pushed at some point.
pub proof fn lemma_delivered_contiguous(m: ReassemblerModel)
    requires
        inv(m),
    ensures
        m.delivered.len() == m.head,
        forall|j: int| 0 <= j < m.head ==> #[trigger] m.seen.dom().contains(j),
        forall|j: int| 0 <= j < m.head ==> m.delivered[j] == #[trigger] m.seen[j],
{
}

proof fn lemma_slots_map_card(s: Seq<Option<u8>>, head: int)
    ensures
        slots_map(s, head).dom().finite(),
        slots_map(s, head).dom().len() == count_some(s),
    decreases s.len(),
{
    if s.len() == 0 {
        assert(slots_map(s, head).dom() =~= Set::<int>::empty());
    } else {
        let front = s.take(s.len() - 1);
        lemma_slots_map_card(front, head);
        assert(front + s.skip(s.len() - 1) =~= s);
        lemma_count_some_add(front, s.skip(s.len() - 1));
        let last = s.len() - 1;
        let tailseq = s.skip(s.len() - 1);
        assert(tailseq.len() == 1);
        assert(tailseq.drop_first().len() == 0);
        assert(count_some(tailseq.drop_first()) == 0);
        if slot_is(s, last) {
            assert(slot_is(tailseq, 0));
            assert(count_some(tailseq) == 1);
            assert(slots_map(s, head).dom() =~= slots_map(front, head).dom().insert(head + last));
            assert(!slots_map(front, head).dom().contains(head + last));
        } else {
            assert(!slot_is(tailseq, 0));
            assert(count_some(tailseq) == 0);
            assert(slots_map(s, head).dom() =~= slots_map(front, head).dom());
        }
    }
}

/// The clip of `data` restricted to absolute indices below `upto`,
/// already combined with the previously pending bytes (stored first
/// wins): the state of the slot array mid-insertion.
pub open spec fn partial_map(data: Seq<u8>, index: int, m: ReassemblerModel, upto: int)
    -> Map<int, u8> {
    Map::new(
        |j: int| index <= j < upto && m.head <= j && j < m.head + m.capacity,
        |j: int| data[j - index],
    ).union_prefer_right(m.pending)
}

/// The stream reassembler: a slot array holding the pending bytes of
/// the current window, the delivery head, the latched EOF flag, and the
/// downstream `ByteStream`.
pub struct StreamReassembler {
    slots: Vec<Option<u8>>,
    unassemble_bytes: usize,
    head_index: usize,
    eof_flag: bool,
    output: ByteStream,
    capacity: usize,
    /// Every byte ever accepted into the window, first write wins.
    seen: Ghost<Map<int, u8>>,
}

impl StreamReassembler {
    /// The abstract state this reassembler represents.
    pub closed spec fn model(&self) -> ReassemblerModel {
        ReassemblerModel {
            head: self.head_index as int,
            capacity: self.capacity as int,
            out_read: self.output.spec_bytes_read() as int,
            pending: slots_map(self.slots@, self.head_index as int),
            seen: self.seen@,
            delivered: self.output.spec_history(),
            eof_flag: self.eof_flag,
            out_ended: self.output.spec_input_ended(),
        }
    }

    /// The downstream stream's current state.
    pub closed spec fn spec_output(&self) -> ByteStream {
        self.output
    }

    pub open spec fn spec_head(&self) -> int {
        self.model().head
    }

    pub open spec fn spec_capacity(&self) -> int {
        self.model().capacity
    }

    pub open spec fn spec_unassembled(&self) -> nat {
        self.model().pending.dom().len()
    }

    pub open spec fn spec_eof_flag(&self) -> bool {
        self.model().eof_flag
    }

    pub closed spec fn wf(&self) -> bool {
        &&& self.slots@.len() == self.capacity
        &&& self.output.wf()
        &&& self.output.spec_capacity() == self.capacity
        &&& self.output.spec_bytes_written() == self.head_index
        &&& self.unassemble_bytes == count_some(self.slots@)
        &&& inv(self.model())
    }

    /// Relates the reassembler to its downstream stream: facts a caller
    /// of `stream_out` may rely on.
    pub proof fn lemma_wf_output(&self)
        requires
            self.wf(),
        ensures
            self.spec_output().wf(),
            self.spec_output().spec_capacity() == self.spec_capacity(),
            self.spec_output().spec_bytes_written() == self.spec_head(),
            self.spec_output().spec_history() == self.model().delivered,
            self.spec_output().spec_bytes_read() == self.model().out_read,
            self.spec_output().spec_input_ended() == self.model().out_ended,
            inv(self.model()),
    {
    }

    pub fn new(capacity: usize) -> (r: Self)
        ensures
            r.wf(),
            r.spec_head() == 0,
            r.spec_capacity() == capacity,
            r.model().pending =~= Map::<int, u8>::empty(),
            r.model().seen =~= Map::<int, u8>::empty(),
            r.model().delivered =~= Seq::<u8>::empty(),
            !r.model().eof_flag,
            !r.model().out_ended,
            r.model().out_read == 0,
            !r.spec_output().spec_error(),
            r.spec_output().spec_buffer_size() == 0,
            !r.spec_output().spec_input_ended(),
    {
        let mut slots: Vec<Option<u8>> = Vec::new();
        let mut i: usize = 0;
        while i < capacity
            invariant
                i <= capacity,
                slots@.len() == i,
                forall|k: int| 0 <= k < i ==> !slot_is(slots@, k),
            decreases capacity - i,
        {
            slots.push(None);
            i = i + 1;
        }
        proof {
            lemma_count_some_all_none(slots@);
        }
        let r = StreamReassembler {
            slots,
            unassemble_bytes: 0,
            head_index: 0,
            eof_flag: false,
            output: ByteStream::new(capacity),
            capacity,
            seen: Ghost(Map::empty()),
        };
        proof {
            assert(r.model().pending =~= Map::<int, u8>::empty());
        }
        r
    }

    /// A read-only view of the downstream stream.
    pub fn stream_out(&self) -> (r: &ByteStream)
        ensures
            *r == self.spec_output(),
    {
        &self.output
    }

    /// Reads (pops) up to `len` bytes from the downstream stream.
    pub fn read_out(&mut self, len: usize) -> (r: Vec<u8>)
        requires
            old(self).wf(),
        ensures
            final(self).wf(),
            r@ == old(self).spec_output().spec_buffer().take(
                min(len as int, old(self).spec_output().spec_buffer_size() as int),
            ),
            final(self).spec_output().spec_buffer()
                == old(self).spec_output().spec_buffer().skip(r@.len() as int),
            final(self).spec_output().spec_bytes_read()
                == old(self).spec_output().spec_bytes_read() + r@.len(),
            final(self).model() == (ReassemblerModel {
                out_read: old(self).model().out_read + r@.len(),
                ..old(self).model()
            }),
            final(self).spec_output().spec_input_ended()
                == old(self).spec_output().spec_input_ended(),
            final(self).spec_output().spec_error() == old(self).spec_output().spec_error(),
    {
        let r = self.output.pop_output(len);
        proof {
            assert(self.model() =~= (ReassemblerModel {
                out_read: old(self).model().out_read + r@.len(),
                ..old(self).model()
            }));
            lemma_inv_core(old(self).model(), self.model());
        }
        r
    }

    /// Marks the downstream stream as errored.
    pub fn set_out_error(&mut self)
        requires
            old(self).wf(),
        ensures
            final(self).wf(),
            final(self).spec_output().spec_error(),
            final(self).model() == old(self).model(),
            final(self).spec_output().spec_buffer() == old(self).spec_output().spec_buffer(),
            final(self).spec_output().spec_input_ended()
                == old(self).spec_output().spec_input_ended(),
    {
        self.output.set_error();
        proof {
            assert(self.model() =~= old(self).model());
            lemma_inv_core(old(self).model(), self.model());
        }
    }

    pub fn unassemble_bytes(&self) -> (r: usize)
        requires
            self.wf(),
        ensures
            r == self.spec_unassembled(),
            (r == 0) <==> self.model().pending.dom().is_empty(),
    {
        proof {
            lemma_slots_map_card(self.slots@, self.head_index as int);
            lemma_set_empty_equivalency_len(self.model().pending.dom());
        }
        self.unassemble_bytes
    }

    pub fn is_empty(&self) -> (r: bool)
        requires
            self.wf(),
        ensures
            r == (self.spec_unassembled() == 0),
            r <==> self.model().pending.dom().is_empty(),
    {
        self.unassemble_bytes() == 0
    }

    pub fn head_index(&self) -> (r: usize)
        ensures
            r == self.spec_head(),
    {
        self.head_index
    }

    /// The reassembler itself never reports its input side as ended;
    /// end of input is observed on the downstream stream instead.
    pub fn input_ended(&self) -> (r: bool)
        ensures
            !r,
    {
        false
    }

    /// Accepts the bytes of `data` at absolute index `index` that fall
    /// in the window, keeps first-written bytes on overlap, flushes the
    /// contiguous run at the head into the downstream stream as far as
    /// it has room, and latches `eof`; the whole effect is `spec_push`.
    #[verifier::rlimit(100)]
    pub fn push_substring(&mut self, data: &[u8], index: usize, eof: bool)
        requires
            old(self).wf(),
            old(self).spec_head() + old(self).spec_capacity() <= usize::MAX,
        ensures
            final(self).wf(),
            final(self).model() == spec_push(old(self).model(), data@, index as int, eof),
            final(self).spec_capacity() == old(self).spec_capacity(),
            final(self).spec_output().spec_error() == old(self).spec_output().spec_error(),
            final(self).spec_head() >= old(self).spec_head(),
    {
        let ghost m0 = old(self).model();
        let len = data.len();
        let head = self.head_index;
        let cap = self.capacity;
        let empty_clip: bool = len == 0 || cap == 0
            || (index < head && len <= head - index)
            || (index >= head && index - head >= cap);
        if empty_clip {
            proof {
                assert(clip_empty(data@.len() as int, index as int, m0.head, m0.capacity));
            }
            self.judge_eof(eof);
            return;
        }
        proof {
            assert(!clip_empty(data@.len() as int, index as int, m0.head, m0.capacity));
        }
        let start: usize = if index >= head { 0 } else { head - index };
        let end: usize = if index >= head {
            if len > cap - (index - head) { cap - (index - head) } else { len }
        } else {
            if len - start > cap { start + cap } else { len }
        };
        let ghost combined = push_combined(m0, data@, index as int);
        // Insert the in-window bytes, first write wins.
        let mut k: usize = start;
        proof {
            assert(slots_map(self.slots@, head as int)
                =~= partial_map(data@, index as int, m0, index as int + start as int));
        }
        while k < end
            invariant
                start <= k <= end,
                end <= data@.len(),
                index + start >= head,
                index + end <= head + cap,
                head + cap <= usize::MAX,
                cap == self.capacity,
                head == self.head_index,
                self.slots@.len() == cap,
                self.eof_flag == old(self).eof_flag,
                self.output == old(self).output,
                self.seen == old(self).seen,
                self.unassemble_bytes == count_some(self.slots@),
                slots_map(self.slots@, head as int)
                    == partial_map(data@, index as int, m0, index as int + k as int),
                m0 == old(self).model(),
                m0.head == head as int,
                m0.capacity == cap as int,
            decreases end - k,
        {
            let j: usize = index + k - head;
            let ghost sl0 = self.slots@;
            let ghost pm_old = partial_map(data@, index as int, m0, index as int + k as int);
            let ghost pm_new = partial_map(data@, index as int, m0, index as int + k as int + 1);
            if self.slots[j].is_none() {
                let b = data[k];
                self.slots.set(j, Some(b));
                proof {
                    lemma_count_some_update(sl0, j as int, b);
                    lemma_count_some_le(self.slots@);
                }
                self.unassemble_bytes = self.unassemble_bytes + 1;
            }
            proof {
                lemma_insert_step(sl0, self.slots@, data@, index as int, m0, k as int);
            }
            k = k + 1;
        }
        proof {
            let h = head as int;
            let pm = partial_map(data@, index as int, m0, index as int + end as int);
            assert forall|jj: int| #[trigger] combined.dom().contains(jj)
                implies pm.dom().contains(jj) && combined[jj] == pm[jj] by {
                if !m0.pending.dom().contains(jj) {
                    assert(clip(data@, index as int, m0.head, m0.capacity).dom().contains(jj));
                    assert(jj < index as int + end as int);
                }
            }
            assert forall|jj: int| #[trigger] pm.dom().contains(jj)
                implies combined.dom().contains(jj) && combined[jj] == pm[jj] by {
                if !m0.pending.dom().contains(jj) {
                    assert(jj < index as int + data@.len());
                    assert(clip(data@, index as int, m0.head, m0.capacity).dom().contains(jj));
                }
            }
            assert(slots_map(self.slots@, h) =~= combined);
        }
        self.seen = Ghost(
            clip(data@, index as int, m0.head, m0.capacity).union_prefer_right(m0.seen),
        );
        // Find the contiguous run at the head.
        let mut run: usize = 0;
        while run < cap && self.slots[run].is_some()
            invariant
                run <= cap,
                self.slots@.len() == cap,
                forall|t: int| 0 <= t < run ==> slot_is(self.slots@, t),
            decreases cap - run,
        {
            run = run + 1;
        }
        proof {
            let h = head as int;
            assert forall|t: int| 0 <= t < run implies #[trigger] combined.dom().contains(h + t) by {
                assert(slot_is(self.slots@, (h + t) - h));
                assert(slots_map(self.slots@, h).dom().contains(h + t));
            }
            if run < cap {
                assert(!slot_is(self.slots@, run as int));
                if combined.dom().contains(h + run as int) {
                    assert(slots_map(self.slots@, h).dom().contains(h + run as int));
                    assert(slot_is(self.slots@, run as int));
                }
            }
            lemma_contiguous_run_eq(combined, h, cap as nat, run as nat);
        }
        // Flush as much of the run as the downstream stream has room for.
        let rem = self.output.remaining_capacity();
        let cnt: usize = if run < rem { run } else { rem };
        proof {
            assert(rem as int == m0.capacity - (m0.head - m0.out_read));
            assert(cnt as int == push_flush_count(m0, data@, index as int));
        }
        let mut flush: Vec<u8> = Vec::new();
        let mut t: usize = 0;
        while t < cnt
            invariant
                t <= cnt,
                cnt <= run,
                run <= cap,
                self.slots@.len() == cap,
                forall|u: int| 0 <= u < run ==> slot_is(self.slots@, u),
                flush@ == Seq::new(t as nat, |u: int| slot_val(self.slots@, u)),
            decreases cnt - t,
        {
            let b = match self.slots[t] {
                Some(x) => x,
                None => 0,
            };
            flush.push(b);
            proof {
                assert(flush@ =~= Seq::new((t + 1) as nat, |u: int| slot_val(self.slots@, u)));
            }
            t = t + 1;
        }
        let ghost sl_before = self.slots@;
        let written = self.output.write(flush.as_slice());
        proof {
            assert(written == cnt);
            assert(flush@.take(cnt as int) =~= flush@);
        }
        // Slide the window past the flushed bytes.
        let mut new_slots: Vec<Option<u8>> = Vec::new();
        let mut s: usize = cnt;
        while s < cap
            invariant
                cnt <= s <= cap,
                sl_before.len() == cap,
                self.slots@ == sl_before,
                new_slots@.len() == s - cnt,
                forall|u: int| 0 <= u < s - cnt ==> new_slots@[u] == sl_before[u + cnt],
            decreases cap - s,
        {
            let v = self.slots[s];
            new_slots.push(v);
            s = s + 1;
        }
        let mut p: usize = 0;
        while p < cnt
            invariant
                p <= cnt,
                cnt <= cap,
                sl_before.len() == cap,
                new_slots@.len() == cap - cnt + p,
                forall|u: int| 0 <= u < cap - cnt ==> new_slots@[u] == sl_before[u + cnt],
                forall|u: int| cap - cnt <= u < cap - cnt + p ==> !slot_is(new_slots@, u),
            decreases cnt - p,
        {
            new_slots.push(None);
            p = p + 1;
        }
        self.slots = new_slots;
        self.head_index = head + cnt;
        proof {
            assert(sl_before.take(cnt as int) + sl_before.skip(cnt as int) =~= sl_before);
            lemma_count_some_add(sl_before.take(cnt as int), sl_before.skip(cnt as int));
            assert forall|u: int| 0 <= u < cnt implies slot_is(sl_before.take(cnt as int), u) by {
                assert(sl_before.take(cnt as int)[u] == sl_before[u]);
            }
            lemma_count_some_all_some(sl_before.take(cnt as int));
            let tail = self.slots@.take((cap - cnt) as int);
            let pad = self.slots@.skip((cap - cnt) as int);
            assert(tail + pad =~= self.slots@);
            lemma_count_some_add(tail, pad);
            assert(tail =~= sl_before.skip(cnt as int));
            assert forall|u: int| 0 <= u < pad.len() implies !slot_is(pad, u) by {
                assert(pad[u] == self.slots@[u + cap - cnt]);
            }
            lemma_count_some_all_none(pad);
        }
        self.unassemble_bytes = self.unassemble_bytes - cnt;
        let ghost flushed = ReassemblerModel {
            head: m0.head + cnt,
            capacity: m0.capacity,
            out_read: m0.out_read,
            pending: combined.remove_keys(Set::new(|j: int| m0.head <= j < m0.head + cnt)),
            seen: clip(data@, index as int, m0.head, m0.capacity).union_prefer_right(m0.seen),
            delivered: m0.delivered + Seq::new(cnt as nat, |u: int| combined[m0.head + u]),
            eof_flag: m0.eof_flag,
            out_ended: m0.out_ended,
        };
        proof {
            let h = head as int;
            // The new slot array represents exactly the unflushed pending bytes.
            assert forall|jj: int| slots_map(self.slots@, h + cnt).dom().contains(jj)
                implies #[trigger] flushed.pending.dom().contains(jj)
                    && slots_map(self.slots@, h + cnt)[jj] == flushed.pending[jj] by {
                let u = jj - (h + cnt);
                assert(slot_is(self.slots@, u));
                assert(u < cap - cnt);
                assert(self.slots@[u] == sl_before[u + cnt]);
                assert(slot_is(sl_before, jj - h));
                assert(slots_map(sl_before, h).dom().contains(jj));
                assert(combined.dom().contains(jj));
                assert(slots_map(self.slots@, h + cnt)[jj] == slot_val(sl_before, jj - h));
                assert(slots_map(sl_before, h)[jj] == slot_val(sl_before, jj - h));
            }
            assert forall|jj: int| flushed.pending.dom().contains(jj)
                implies slots_map(self.slots@, h + cnt).dom().contains(jj) by {
                assert(combined.dom().contains(jj));
                assert(slots_map(sl_before, h).dom().contains(jj));
                assert(h <= jj < h + cap);
                assert(jj >= h + cnt);
                assert(slot_is(sl_before, jj - h));
                assert(jj - h - cnt < cap - cnt);
                assert(self.slots@[jj - h - cnt] == sl_before[jj - h]);
                assert(slot_is(self.slots@, jj - (h + cnt)));
            }
            assert(slots_map(self.slots@, h + cnt) =~= flushed.pending);
            // The bytes just written are the head of the combined run.
            assert forall|u: int| 0 <= u < cnt
                implies flush@[u] == #[trigger] combined[m0.head + u] by {
                assert(slot_is(sl_before, u));
                assert(slots_map(sl_before, h).dom().contains(h + u));
                assert(slots_map(sl_before, h)[h + u] == slot_val(sl_before, u));
            }
            assert(self.output.spec_history()
                =~= m0.delivered + Seq::new(cnt as nat, |u: int| combined[m0.head + u]));
            assert(self.model() =~= flushed);
            // The flushed state satisfies the invariant again.
            lemma_push_preserves_inv(m0, data@, index as int, eof);
            assert(spec_push(m0, data@, index as int, eof) == latch_eof(flushed, eof));
            lemma_inv_core(latch_eof(flushed, eof), flushed);
            assert(inv(flushed));
        }
        self.judge_eof(eof);
        proof {
            assert(final(self).model() == latch_eof(flushed, eof));
            assert(spec_push(m0, data@, index as int, eof) =~= latch_eof(flushed, eof));
        }
    }

    /// Latches `eof` and ends the downstream input once everything
    /// pending has been delivered.
    fn judge_eof(&mut self, eof: bool)
        requires
            old(self).wf(),
        ensures
            final(self).wf(),
            final(self).model() == latch_eof(old(self).model(), eof),
            final(self).spec_output().spec_error() == old(self).spec_output().spec_error(),
    {
        if eof {
            self.eof_flag = true;
        }
        proof {
            assert(self.model() =~= (ReassemblerModel {
                eof_flag: old(self).model().eof_flag || eof,
                ..old(self).model()
            }));
            lemma_inv_core(old(self).model(), self.model());
        }
        let empty = self.unassemble_bytes() == 0;
        if self.eof_flag && empty {
            self.output.end_input();
            proof {
                assert(self.model() =~= (ReassemblerModel {
                    eof_flag: old(self).model().eof_flag || eof,
                    out_ended: true,
                    ..old(self).model()
                }));
                lemma_inv_core(old(self).model(), self.model());
            }
        }
        proof {
            assert(final(self).model() =~= latch_eof(old(self).model(), eof));
        }
    }
}

/// Every byte of the combined map is recorded in the updated `seen`
/// map with the same value, and conversely past the head.
proof fn lemma_combined_seen(m: ReassemblerModel, data: Seq<u8>, index: int, j: int)
    requires
        inv(m),
        push_combined(m, data, index).dom().contains(j),
    ensures
        clip(data, index, m.head, m.capacity).union_prefer_right(m.seen).dom().contains(j),
        clip(data, index, m.head, m.capacity).union_prefer_right(m.seen)[j]
            == push_combined(m, data, index)[j],
        m.head <= j < m.head + m.capacity,
{
    let c = clip(data, index, m.head, m.capacity);
    let seen2 = c.union_prefer_right(m.seen);
    if m.pending.dom().contains(j) {
        assert(m.seen.dom().contains(j));
        assert(seen2[j] == m.seen[j]);
    } else {
        assert(c.dom().contains(j));
        if m.seen.dom().contains(j) {
            assert(j >= m.head);
            assert(m.pending.dom().contains(j));
            assert(false);
        }
        assert(seen2[j] == c[j]);
    }
}

} // verus!
