//! Properties of the frame discipline that span several operations on a page.
use vstd::prelude::*;

use crate::stack::{
    in_window, is_root_slot, lemma_header_mono, link_of, lemma_slot_of_root, occupancy_of, slot_value,
    with_frame, with_root, write_slot, FrameView, header_of,
};

verus! {

/// One frame operation, as a step on the open frames of a page.
pub enum FrameOp {
    /// `new_static_frame(capacity)`
    OpenStatic(usize),
    /// `new_dynamic_frame()`
    OpenDynamic,
    /// `pop_frame` of the top frame
    Close,
}

/// The open frames after a successful `op`.
pub open spec fn apply_op(frames: Seq<FrameView>, op: FrameOp) -> Seq<FrameView> {
    match op {
        FrameOp::OpenStatic(c) => with_frame(frames, false, c as nat),
        FrameOp::OpenDynamic => with_frame(frames, true, 0),
        FrameOp::Close => frames.drop_last(),
    }
}

/// The open frames after each of `ops` in turn.
pub open spec fn run_ops(frames: Seq<FrameView>, ops: Seq<FrameOp>) -> Seq<FrameView>
    decreases ops.len(),
{
    if ops.len() == 0 {
        frames
    } else {
        run_ops(apply_op(frames, ops[0]), ops.drop_first())
    }
}

pub open spec fn depth_delta(op: FrameOp) -> int {
    match op {
        FrameOp::Close => -1,
        _ => 1,
    }
}

/// Opens minus closes.
pub open spec fn depth_change(ops: Seq<FrameOp>) -> int
    decreases ops.len(),
{
    if ops.len() == 0 {
        0
    } else {
        depth_delta(ops[0]) + depth_change(ops.drop_first())
    }
}

/// Every close matches an earlier open of the same sequence, and every open is closed.
pub open spec fn balanced(ops: Seq<FrameOp>) -> bool {
    &&& depth_change(ops) == 0
    &&& forall|p: int| 0 <= p <= ops.len() ==> depth_change(#[trigger] ops.take(p)) >= 0
}

proof fn lemma_depth_step(ops: Seq<FrameOp>, p: int)
    requires
        ops.len() > 0,
        0 <= p < ops.len(),
    ensures
        depth_change(ops.take(p + 1)) == depth_delta(ops[0]) + depth_change(ops.drop_first().take(p)),
{
    assert(ops.take(p + 1).drop_first() =~= ops.drop_first().take(p));
}

proof fn lemma_run_keeps_floor(frames: Seq<FrameView>, ops: Seq<FrameOp>, k: int)
    requires
        0 <= k <= frames.len(),
        forall|p: int| 0 <= p <= ops.len() ==> frames.len() + depth_change(#[trigger] ops.take(p)) >= k,
    ensures
        run_ops(frames, ops).len() == frames.len() + depth_change(ops),
        run_ops(frames, ops).take(k) == frames.take(k),
    decreases ops.len(),
{
    if ops.len() > 0 {
        let op = ops[0];
        let rest = ops.drop_first();
        let f1 = apply_op(frames, op);
        assert(ops.take(1).drop_first() =~= Seq::<FrameOp>::empty());
        assert(depth_change(Seq::<FrameOp>::empty()) == 0);
        assert(ops.take(1)[0] == op);
        assert(depth_change(ops.take(1)) == depth_delta(op));
        assert(frames.len() + depth_delta(op) >= k);
        assert(f1.len() == frames.len() + depth_delta(op));
        assert(f1.take(k) =~= frames.take(k));
        assert forall|p: int| 0 <= p <= rest.len() implies f1.len() + depth_change(#[trigger] rest.take(p))
            >= k by {
            lemma_depth_step(ops, p);
            assert(frames.len() + depth_change(ops.take(p + 1)) >= k);
        }
        lemma_run_keeps_floor(f1, rest, k);
        assert(ops.take(ops.len() as int) =~= ops);
        lemma_depth_step(ops, rest.len() as int);
        assert(rest.take(rest.len() as int) =~= rest);
    }
}

/// A balanced sequence of frame opens and closes leaves the open frames, and so the page's
/// occupancy and the head of its frame list, as they were.
pub proof fn lemma_balanced_ops_restore_occupancy(frames: Seq<FrameView>, ops: Seq<FrameOp>)
    requires
        balanced(ops),
    ensures
        run_ops(frames, ops) == frames,
        occupancy_of(run_ops(frames, ops)) == occupancy_of(frames),
        link_of(run_ops(frames, ops), run_ops(frames, ops).len() as int) == link_of(frames, frames.len() as int),
{
    lemma_run_keeps_floor(frames, ops, frames.len() as int);
    assert(run_ops(frames, ops) =~= run_ops(frames, ops).take(frames.len() as int));
    assert(frames.take(frames.len() as int) =~= frames);
}

/// The open frames after each of `vs` is appended to the top frame in turn.
pub open spec fn push_all(frames: Seq<FrameView>, vs: Seq<usize>) -> Seq<FrameView>
    decreases vs.len(),
{
    if vs.len() == 0 {
        frames
    } else {
        push_all(with_root(frames, vs[0]), vs.drop_first())
    }
}

/// Roots appended to a growable frame are all kept, in the order in which they came, and
/// the frames below are untouched.
pub proof fn lemma_pushed_roots_kept_in_order(frames: Seq<FrameView>, vs: Seq<usize>)
    requires
        frames.len() > 0,
    ensures
        push_all(frames, vs).len() == frames.len(),
        push_all(frames, vs).last().roots == frames.last().roots + vs,
        push_all(frames, vs).last().growable == frames.last().growable,
        push_all(frames, vs).drop_last() == frames.drop_last(),
    decreases vs.len(),
{
    if vs.len() == 0 {
        assert(frames.last().roots + vs =~= frames.last().roots);
    } else {
        let f1 = with_root(frames, vs[0]);
        lemma_pushed_roots_kept_in_order(f1, vs.drop_first());
        assert(f1.drop_last() =~= frames.drop_last());
        assert(f1.last().roots + vs.drop_first() =~= frames.last().roots + vs);
    }
}

/// A root appended to a fresh growable frame `n` times reads back, at offsets `0..n`, as
/// the values in the order in which they were appended.
pub proof fn lemma_fresh_growable_frame_reads_back(frames: Seq<FrameView>, vs: Seq<usize>)
    ensures
        push_all(with_frame(frames, true, 0), vs).last().roots == vs,
        forall|j: int| 0 <= j < vs.len() ==> #[trigger] push_all(with_frame(frames, true, 0), vs).last().roots[j] == vs[j],
{
    let f0 = with_frame(frames, true, 0);
    lemma_pushed_roots_kept_in_order(f0, vs);
    assert(f0.last().roots + vs =~= vs);
}

/// An output reserved at the end of a growable frame A, then written after a frame B opened
/// on top of A has closed, reads as the value written while A stays open, with or without
/// frames opened above it, and is no root slot once A has closed.
pub proof fn lemma_output_outlives_nested_frame(
    frames: Seq<FrameView>,
    child_growable: bool,
    child_capacity: nat,
    later_growable: bool,
    later_capacity: nat,
    v: usize,
)
    requires
        frames.len() > 0,
    ensures
        ({
            let a = frames.len() - 1;
            let out = occupancy_of(frames) + 1;
            let reserved = with_root(frames, 0);
            let nested = with_frame(reserved, child_growable, child_capacity);
            let closed = nested.drop_last();
            let written = write_slot(closed, out, v);
            &&& closed == reserved
            &&& is_root_slot(closed, out)
            &&& slot_value(written, out) == Some(v)
            &&& slot_value(with_frame(written, later_growable, later_capacity), out) == Some(v)
            &&& slot_value(written.take(a), out) == None::<usize>
        }),
{
    let n = frames.len() as int;
    let a = n - 1;
    let out = occupancy_of(frames) + 1;
    let reserved = with_root(frames, 0);
    let nested = with_frame(reserved, child_growable, child_capacity);
    let closed = nested.drop_last();
    assert(closed =~= reserved);
    let k = frames[a].roots.len() as int;
    crate::stack::lemma_headers_agree(frames, reserved, a);
    assert(header_of(reserved, a) == header_of(frames, a));
    assert(header_of(reserved, n) == header_of(frames, n) + 1);
    assert(in_window(reserved, a, k, out));
    lemma_slot_of_root(reserved, a, k, out, v);
    let written = write_slot(closed, out, v);
    assert(written == crate::stack::with_root_at(reserved, a, k, v));
    crate::stack::lemma_headers_agree(reserved, written, n);
    assert(header_of(written, a) == header_of(reserved, a));
    assert(in_window(written, a, k, out));
    lemma_slot_of_root(written, a, k, out, 0);
    let later = with_frame(written, later_growable, later_capacity);
    crate::stack::lemma_headers_agree(written, later, n);
    assert(header_of(later, a) == header_of(written, a));
    assert(later[a] == written[a]);
    assert(in_window(later, a, k, out));
    lemma_slot_of_root(later, a, k, out, 0);
    let below = written.take(a);
    crate::stack::lemma_headers_agree(written, below, a);
    assert forall|i: int, m: int| !#[trigger] in_window(below, i, m, out) by {
        if in_window(below, i, m, out) {
            assert(below[i] == written[i]);
            assert(header_of(below, i) == header_of(written, i));
            lemma_header_mono(written, i, a);
        }
    }
}

/// An output reserved at the end of frame A stays a root slot through any balanced sequence
/// of frames opened and closed above A, and once written reads as the value written.
pub proof fn lemma_output_outlives_balanced_nesting(frames: Seq<FrameView>, ops: Seq<FrameOp>, v: usize)
    requires
        frames.len() > 0,
        balanced(ops),
    ensures
        ({
            let out = occupancy_of(frames) + 1;
            let reserved = with_root(frames, 0);
            let after = run_ops(reserved, ops);
            &&& after == reserved
            &&& is_root_slot(after, out)
            &&& slot_value(write_slot(after, out, v), out) == Some(v)
        }),
{
    let reserved = with_root(frames, 0);
    lemma_balanced_ops_restore_occupancy(reserved, ops);
    lemma_output_outlives_nested_frame(frames, true, 0, true, 0, v);
    assert(with_frame(reserved, true, 0).drop_last() =~= reserved);
}

} // verus!
