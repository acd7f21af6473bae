//! The slot buffer on which frames are built, and the frames themselves.
//!
//! A page is a buffer of machine words. Slot 0 counts the slots that open frames occupy.
//! Frames follow each other from slot 1 on. A frame takes a header slot, which holds twice
//! its number of roots, a link slot, which holds the header index of the frame below it (0
//! for the bottom frame), and then its roots. The page keeps the index of the top frame's
//! header as the head of the frame list, which the collector walks from the top down.
use vstd::prelude::*;

verus! {

/// The largest number of slots a page may have: a header holds twice a frame's root count.
pub const MAX_PAGE_SLOTS: usize = usize::MAX / 2;

/// The number of slots of a page created without an explicit size.
pub const DEFAULT_PAGE_SLOTS: usize = 64;

/// Failure to find room for a frame, a root or an output.
#[derive(Clone, Copy, Debug, PartialEq, Eq)]
pub enum AllocError {
    /// `StackOverflow(needed, size)`: `needed` more slots were asked of a page of `size` slots.
    StackOverflow(usize, usize),
    /// `FrameOverflow(offset, capacity)`: a root offset outside a fixed frame's capacity.
    FrameOverflow(usize, usize),
}

/// What an open frame holds: whether it grows on demand, and its roots, bottom first.
pub struct FrameView {
    pub growable: bool,
    pub roots: Seq<usize>,
}

/// An open frame, identified by the index of its first root slot.
#[derive(Clone, Copy, Debug, PartialEq, Eq)]
pub struct FrameIdx(pub usize);

/// A reserved root slot, given by its absolute index in the page. Writing it consumes it, so
/// it is written at most once.
#[derive(Debug, PartialEq, Eq)]
pub struct Output {
    pub offset: usize,
}

/// Index of the header slot of frame `i`.
pub open spec fn header_of(frames: Seq<FrameView>, i: int) -> int
    decreases i,
{
    if i <= 0 {
        1
    } else {
        header_of(frames, i - 1) + frames[i - 1].roots.len() + 2
    }
}

/// What the link slot of frame `i` holds: the header index of the frame below, or 0.
pub open spec fn link_of(frames: Seq<FrameView>, i: int) -> int {
    if i <= 0 {
        0
    } else {
        header_of(frames, i - 1)
    }
}

/// The number of slots that the frames occupy.
pub open spec fn occupancy_of(frames: Seq<FrameView>) -> int {
    header_of(frames, frames.len() as int) - 1
}

/// Slot `abs` is root `k` of frame `i`.
pub open spec fn in_window(frames: Seq<FrameView>, i: int, k: int, abs: int) -> bool {
    &&& 0 <= i < frames.len()
    &&& 0 <= k < frames[i].roots.len()
    &&& abs == header_of(frames, i) + 2 + k
}

/// Slot `abs` is a root slot of an open frame.
pub open spec fn is_root_slot(frames: Seq<FrameView>, abs: int) -> bool {
    exists|i: int, k: int| #[trigger] in_window(frames, i, k, abs)
}

/// The value rooted in slot `abs`, if that slot is a root slot of an open frame.
pub open spec fn slot_value(frames: Seq<FrameView>, abs: int) -> Option<usize> {
    if is_root_slot(frames, abs) {
        let (i, k) = choose|i: int, k: int| in_window(frames, i, k, abs);
        Some(frames[i].roots[k])
    } else {
        None
    }
}

/// The frames after `v` is stored in root slot `abs`; unchanged if `abs` is no root slot.
pub open spec fn write_slot(frames: Seq<FrameView>, abs: int, v: usize) -> Seq<FrameView> {
    if is_root_slot(frames, abs) {
        let (i, k) = choose|i: int, k: int| in_window(frames, i, k, abs);
        frames.update(i, FrameView { growable: frames[i].growable, roots: frames[i].roots.update(k, v) })
    } else {
        frames
    }
}

pub open spec fn zeros(n: nat) -> Seq<usize> {
    Seq::new(n, |_i: int| 0usize)
}

/// The roots of all open frames, as the collector meets them: top frame first, each frame's
/// roots in order.
pub open spec fn roots_top_down(frames: Seq<FrameView>) -> Seq<usize>
    decreases frames.len(),
{
    if frames.len() == 0 {
        Seq::empty()
    } else {
        frames.last().roots + roots_top_down(frames.drop_last())
    }
}

/// The frames after a frame with `capacity` empty roots is opened on top.
pub open spec fn with_frame(frames: Seq<FrameView>, growable: bool, capacity: nat) -> Seq<FrameView> {
    frames.push(FrameView { growable, roots: zeros(capacity) })
}

/// The frames after `v` is appended to the roots of the top frame.
pub open spec fn with_root(frames: Seq<FrameView>, v: usize) -> Seq<FrameView> {
    let t = frames.len() - 1;
    frames.update(t, FrameView { growable: frames[t].growable, roots: frames[t].roots.push(v) })
}

/// The frames after root `k` of frame `i` is set to `v`.
pub open spec fn with_root_at(frames: Seq<FrameView>, i: int, k: int, v: usize) -> Seq<FrameView> {
    frames.update(i, FrameView { growable: frames[i].growable, roots: frames[i].roots.update(k, v) })
}

/// As many frames are open in `b` as in `a`, and every frame but the top one has as many roots.
pub open spec fn same_shape_below_top(a: Seq<FrameView>, b: Seq<FrameView>) -> bool {
    &&& a.len() == b.len()
    &&& forall|i: int| 0 <= i < a.len() - 1 ==> #[trigger] a[i].roots.len() == b[i].roots.len()
}

/// Frames of the same shape below the top have their top frame at the same place.
pub proof fn lemma_same_shape_top(a: Seq<FrameView>, b: Seq<FrameView>)
    requires
        same_shape_below_top(a, b),
        a.len() > 0,
    ensures
        header_of(a, a.len() - 1) == header_of(b, b.len() - 1),
{
    lemma_header_prefix(a, b, a.len() - 1);
}

pub proof fn lemma_header_positive(frames: Seq<FrameView>, i: int)
    ensures
        header_of(frames, i) >= 1,
    decreases i,
{
    if i > 0 {
        lemma_header_positive(frames, i - 1);
    }
}

/// A frame's window lies below the header of every frame above it.
pub proof fn lemma_header_mono(frames: Seq<FrameView>, i: int, j: int)
    requires
        0 <= i < j,
    ensures
        header_of(frames, i) + frames[i].roots.len() + 2 <= header_of(frames, j),
    decreases j - i,
{
    if j > i + 1 {
        lemma_header_mono(frames, i, j - 1);
    }
}

/// Headers depend only on the lengths of the frames below.
pub proof fn lemma_header_prefix(f1: Seq<FrameView>, f2: Seq<FrameView>, i: int)
    requires
        0 <= i,
        i <= f1.len(),
        i <= f2.len(),
        forall|j: int| 0 <= j < i ==> (#[trigger] f1[j]).roots.len() == f2[j].roots.len(),
    ensures
        header_of(f1, i) == header_of(f2, i),
    decreases i,
{
    if i > 0 {
        lemma_header_prefix(f1, f2, i - 1);
    }
}

pub proof fn lemma_headers_agree(f1: Seq<FrameView>, f2: Seq<FrameView>, n: int)
    requires
        0 <= n,
        n <= f1.len(),
        n <= f2.len(),
        forall|j: int| 0 <= j < n ==> (#[trigger] f1[j]).roots.len() == f2[j].roots.len(),
    ensures
        forall|i: int| 0 <= i <= n ==> #[trigger] header_of(f1, i) == header_of(f2, i),
{
    assert forall|i: int| 0 <= i <= n implies #[trigger] header_of(f1, i) == header_of(f2, i) by {
        lemma_header_prefix(f1, f2, i);
    }
}

/// A slot belongs to at most one root of at most one frame.
pub proof fn lemma_window_unique(frames: Seq<FrameView>, i: int, k: int, i2: int, k2: int, abs: int)
    requires
        in_window(frames, i, k, abs),
        in_window(frames, i2, k2, abs),
    ensures
        i == i2,
        k == k2,
{
    if i < i2 {
        lemma_header_mono(frames, i, i2);
    } else if i2 < i {
        lemma_header_mono(frames, i2, i);
    }
}

/// A root slot never coincides with a header or a link slot.
pub proof fn lemma_root_not_header(frames: Seq<FrameView>, i: int, k: int, j: int)
    requires
        0 <= i < frames.len(),
        0 <= k < frames[i].roots.len(),
        0 <= j <= frames.len(),
    ensures
        header_of(frames, i) + 2 + k != header_of(frames, j),
        header_of(frames, i) + 2 + k != header_of(frames, j) + 1,
{
    if i < j {
        lemma_header_mono(frames, i, j);
    } else if j < i {
        lemma_header_mono(frames, j, i);
    }
}

/// How the slots of a page hold its frames, and the head of the frame list.
spec fn layout_ok(s: Seq<usize>, fr: Seq<FrameView>, head: int) -> bool {
    &&& 1 <= s.len() <= MAX_PAGE_SLOTS
    &&& s[0] == occupancy_of(fr)
    &&& occupancy_of(fr) + 1 <= s.len()
    &&& forall|i: int| 0 <= i < fr.len() ==> s[#[trigger] header_of(fr, i)] == 2 * fr[i].roots.len()
    &&& forall|i: int| 0 <= i < fr.len() ==> s[header_of(fr, i) + 1] == #[trigger] link_of(fr, i)
    &&& forall|i: int, k: int|
        0 <= i < fr.len() && 0 <= k < fr[i].roots.len() ==> s[header_of(fr, i) + 2 + k]
            == #[trigger] fr[i].roots[k]
    &&& head == link_of(fr, fr.len() as int)
}

/// What the layout says of frame `i`.
proof fn lemma_layout_at(s: Seq<usize>, fr: Seq<FrameView>, head: int, i: int)
    requires
        layout_ok(s, fr, head),
        0 <= i < fr.len(),
    ensures
        1 <= header_of(fr, i),
        header_of(fr, i) + fr[i].roots.len() + 2 <= occupancy_of(fr) + 1,
        occupancy_of(fr) + 1 <= s.len(),
        s[header_of(fr, i)] == 2 * fr[i].roots.len(),
        s[header_of(fr, i) + 1] == link_of(fr, i),
        forall|k: int| 0 <= k < fr[i].roots.len() ==> s[header_of(fr, i) + 2 + k] == #[trigger] fr[i].roots[k],
{
    lemma_header_positive(fr, i);
    if i + 1 < fr.len() {
        lemma_header_mono(fr, i + 1, fr.len() as int);
    }
    assert(s[header_of(fr, i) + 1] == link_of(fr, i));
}

proof fn lemma_layout_pop(s: Seq<usize>, fr: Seq<FrameView>, head: int)
    requires
        layout_ok(s, fr, head),
        fr.len() > 0,
    ensures
        layout_ok(
            s.update(0, (header_of(fr, fr.len() - 1) - 1) as usize),
            fr.drop_last(),
            s[header_of(fr, fr.len() - 1) + 1] as int,
        ),
{
    let n = fr.len() as int;
    let new_fr = fr.drop_last();
    let s2 = s.update(0, (header_of(fr, n - 1) - 1) as usize);
    lemma_layout_at(s, fr, head, n - 1);
    lemma_headers_agree(fr, new_fr, n - 1);
    assert forall|i: int| 0 <= i < new_fr.len() implies s2[#[trigger] header_of(new_fr, i)] == 2
        * new_fr[i].roots.len() by {
        lemma_layout_at(s, fr, head, i);
        assert(new_fr[i] == fr[i]);
        assert(header_of(new_fr, i) == header_of(fr, i));
    }
    assert forall|i: int| 0 <= i < new_fr.len() implies s2[header_of(new_fr, i) + 1] == #[trigger] link_of(
        new_fr,
        i,
    ) by {
        lemma_layout_at(s, fr, head, i);
        assert(header_of(new_fr, i) == header_of(fr, i));
        if i > 0 {
            assert(header_of(new_fr, i - 1) == header_of(fr, i - 1));
        }
    }
    assert forall|i: int, k: int|
        0 <= i < new_fr.len() && 0 <= k < new_fr[i].roots.len() implies s2[header_of(new_fr, i) + 2 + k]
        == #[trigger] new_fr[i].roots[k] by {
        lemma_layout_at(s, fr, head, i);
        assert(new_fr[i] == fr[i]);
        assert(header_of(new_fr, i) == header_of(fr, i));
        assert(s[header_of(fr, i) + 2 + k] == fr[i].roots[k]);
    }
    assert(header_of(new_fr, n - 1) == header_of(fr, n - 1));
    assert(s[header_of(fr, n - 1) + 1] == link_of(fr, n - 1));
    if n > 1 {
        assert(header_of(new_fr, n - 2) == header_of(fr, n - 2));
    }
}

proof fn lemma_layout_write(s: Seq<usize>, fr: Seq<FrameView>, head: int, i: int, k: int, v: usize)
    requires
        layout_ok(s, fr, head),
        in_window(fr, i, k, header_of(fr, i) + 2 + k),
    ensures
        1 <= header_of(fr, i) + 2 + k < s.len(),
        layout_ok(s.update(header_of(fr, i) + 2 + k, v), with_root_at(fr, i, k, v), head),
        with_root_at(fr, i, k, v) == write_slot(fr, header_of(fr, i) + 2 + k, v),
{
    let n = fr.len() as int;
    let abs = header_of(fr, i) + 2 + k;
    let new_fr = with_root_at(fr, i, k, v);
    let s2 = s.update(abs, v);
    lemma_layout_at(s, fr, head, i);
    lemma_slot_of_root(fr, i, k, abs, v);
    lemma_headers_agree(fr, new_fr, n);
    assert forall|j: int| 0 <= j < new_fr.len() implies s2[#[trigger] header_of(new_fr, j)] == 2
        * new_fr[j].roots.len() by {
        lemma_layout_at(s, fr, head, j);
        lemma_root_not_header(fr, i, k, j);
        assert(header_of(new_fr, j) == header_of(fr, j));
    }
    assert forall|j: int| 0 <= j < new_fr.len() implies s2[header_of(new_fr, j) + 1] == #[trigger] link_of(
        new_fr,
        j,
    ) by {
        lemma_layout_at(s, fr, head, j);
        lemma_root_not_header(fr, i, k, j);
        assert(header_of(new_fr, j) == header_of(fr, j));
        if j > 0 {
            assert(header_of(new_fr, j - 1) == header_of(fr, j - 1));
        }
    }
    assert forall|j: int, m: int|
        0 <= j < new_fr.len() && 0 <= m < new_fr[j].roots.len() implies s2[header_of(new_fr, j) + 2 + m]
        == #[trigger] new_fr[j].roots[m] by {
        lemma_layout_at(s, fr, head, j);
        assert(header_of(new_fr, j) == header_of(fr, j));
        if j != i || m != k {
            assert(new_fr[j].roots[m] == fr[j].roots[m]);
            assert(s[header_of(fr, j) + 2 + m] == fr[j].roots[m]);
            if header_of(fr, j) + 2 + m == abs {
                assert(in_window(fr, j, m, abs));
                lemma_window_unique(fr, i, k, j, m, abs);
            }
        }
    }
    assert(header_of(new_fr, n) == header_of(fr, n));
    if n > 0 {
        assert(header_of(new_fr, n - 1) == header_of(fr, n - 1));
    }
}

proof fn lemma_layout_open(
    s: Seq<usize>,
    s2: Seq<usize>,
    fr: Seq<FrameView>,
    head: int,
    growable: bool,
    cap: nat,
)
    requires
        layout_ok(s, fr, head),
        occupancy_of(fr) + 3 + cap <= s.len(),
        s2.len() == s.len(),
        s2[0] == occupancy_of(fr) + 2 + cap,
        s2[occupancy_of(fr) + 1] == 2 * cap,
        s2[occupancy_of(fr) + 2] == head,
        forall|j: int| occupancy_of(fr) + 3 <= j < occupancy_of(fr) + 3 + cap ==> s2[j] == 0,
        forall|j: int| 1 <= j <= occupancy_of(fr) ==> s2[j] == s[j],
    ensures
        layout_ok(s2, with_frame(fr, growable, cap), occupancy_of(fr) + 1),
{
    let n = fr.len() as int;
    let new_fr = with_frame(fr, growable, cap);
    let header = occupancy_of(fr) + 1;
    lemma_headers_agree(fr, new_fr, n);
    assert(header_of(new_fr, n) == header);
    assert(header_of(new_fr, n + 1) == header + cap + 2);
    assert forall|i: int| 0 <= i < new_fr.len() implies s2[#[trigger] header_of(new_fr, i)] == 2
        * new_fr[i].roots.len() by {
        if i < n {
            lemma_layout_at(s, fr, head, i);
            assert(new_fr[i] == fr[i]);
            assert(header_of(new_fr, i) == header_of(fr, i));
        }
    }
    assert forall|i: int| 0 <= i < new_fr.len() implies s2[header_of(new_fr, i) + 1] == #[trigger] link_of(
        new_fr,
        i,
    ) by {
        if i < n {
            lemma_layout_at(s, fr, head, i);
            assert(header_of(new_fr, i) == header_of(fr, i));
            if i > 0 {
                assert(header_of(new_fr, i - 1) == header_of(fr, i - 1));
            }
        } else if n > 0 {
            assert(header_of(new_fr, n - 1) == header_of(fr, n - 1));
        }
    }
    assert forall|i: int, k: int|
        0 <= i < new_fr.len() && 0 <= k < new_fr[i].roots.len() implies s2[header_of(new_fr, i) + 2 + k]
        == #[trigger] new_fr[i].roots[k] by {
        if i < n {
            lemma_layout_at(s, fr, head, i);
            assert(new_fr[i] == fr[i]);
            assert(header_of(new_fr, i) == header_of(fr, i));
            assert(s[header_of(fr, i) + 2 + k] == fr[i].roots[k]);
        }
    }
}

proof fn lemma_layout_append(s: Seq<usize>, s2: Seq<usize>, fr: Seq<FrameView>, head: int, v: usize)
    requires
        layout_ok(s, fr, head),
        fr.len() > 0,
        occupancy_of(fr) + 2 <= s.len(),
        s2 == s.update(occupancy_of(fr) + 1, v).update(
            header_of(fr, fr.len() - 1),
            (2 * fr.last().roots.len() + 2) as usize,
        ).update(0, (occupancy_of(fr) + 1) as usize),
    ensures
        layout_ok(s2, with_root(fr, v), head),
        header_of(with_root(fr, v), fr.len() - 1) == header_of(fr, fr.len() - 1),
        in_window(with_root(fr, v), fr.len() - 1, fr.last().roots.len() as int, occupancy_of(fr) + 1),
{
    let n = fr.len() as int;
    let new_fr = with_root(fr, v);
    lemma_layout_at(s, fr, head, n - 1);
    lemma_headers_agree(fr, new_fr, n - 1);
    assert(header_of(new_fr, n - 1) == header_of(fr, n - 1));
    assert(header_of(new_fr, n) == header_of(fr, n) + 1);
    assert forall|i: int| 0 <= i < new_fr.len() implies s2[#[trigger] header_of(new_fr, i)] == 2
        * new_fr[i].roots.len() by {
        lemma_layout_at(s, fr, head, i);
        if i < n - 1 {
            lemma_header_mono(fr, i, n - 1);
            assert(new_fr[i] == fr[i]);
            assert(header_of(new_fr, i) == header_of(fr, i));
        }
    }
    assert forall|i: int| 0 <= i < new_fr.len() implies s2[header_of(new_fr, i) + 1] == #[trigger] link_of(
        new_fr,
        i,
    ) by {
        lemma_layout_at(s, fr, head, i);
        assert(header_of(new_fr, i) == header_of(fr, i));
        if i < n - 1 {
            lemma_header_mono(fr, i, n - 1);
        }
        if i > 0 {
            assert(header_of(new_fr, i - 1) == header_of(fr, i - 1));
        }
    }
    assert forall|i: int, k: int|
        0 <= i < new_fr.len() && 0 <= k < new_fr[i].roots.len() implies s2[header_of(new_fr, i) + 2 + k]
        == #[trigger] new_fr[i].roots[k] by {
        lemma_layout_at(s, fr, head, i);
        assert(header_of(new_fr, i) == header_of(fr, i));
        if i < n - 1 {
            lemma_header_mono(fr, i, n - 1);
            assert(new_fr[i] == fr[i]);
            assert(s[header_of(fr, i) + 2 + k] == fr[i].roots[k]);
        } else if k < fr[i].roots.len() {
            assert(s[header_of(fr, i) + 2 + k] == fr[i].roots[k]);
        }
    }
    if n > 1 {
        assert(header_of(new_fr, n - 2) == header_of(fr, n - 2));
    }
}

/// The slot of root `k` of frame `i` reads as that root, and a write to it changes that
/// root alone.
pub proof fn lemma_slot_of_root(frames: Seq<FrameView>, i: int, k: int, abs: int, v: usize)
    requires
        in_window(frames, i, k, abs),
    ensures
        is_root_slot(frames, abs),
        slot_value(frames, abs) == Some(frames[i].roots[k]),
        write_slot(frames, abs, v) == with_root_at(frames, i, k, v),
{
    let (i2, k2) = choose|i: int, k: int| in_window(frames, i, k, abs);
    lemma_window_unique(frames, i, k, i2, k2, abs);
}

/// The buffer of slots for one execution context, with the head of its frame list.
pub struct StackPage {
    slots: Vec<usize>,
    head: usize,
    frames: Ghost<Seq<FrameView>>,
}

impl StackPage {
    /// The open frames, bottom first.
    pub closed spec fn frames(&self) -> Seq<FrameView> {
        self.frames@
    }

    /// The number of slots in the buffer, slot 0 included.
    pub closed spec fn buffer_len(&self) -> int {
        self.slots@.len() as int
    }

    /// The head of the frame list: the top frame's header index, or 0 when no frame is open.
    pub closed spec fn head_spec(&self) -> int {
        self.head as int
    }

    pub open spec fn occupancy_spec(&self) -> int {
        occupancy_of(self.frames())
    }

    pub open spec fn free_spec(&self) -> int {
        self.buffer_len() - 1 - self.occupancy_spec()
    }

    pub open spec fn start_of(&self, i: int) -> int {
        header_of(self.frames(), i) + 2
    }

    pub open spec fn is_top(&self, f: FrameIdx) -> bool {
        &&& self.frames().len() > 0
        &&& f.0 == self.start_of(self.frames().len() - 1)
    }

    pub open spec fn is_live(&self, f: FrameIdx) -> bool {
        exists|i: int| 0 <= i < self.frames().len() && #[trigger] self.start_of(i) == f.0
    }

    /// The position in `frames()` of an open frame.
    pub open spec fn position(&self, f: FrameIdx) -> int {
        choose|i: int| 0 <= i < self.frames().len() && #[trigger] self.start_of(i) == f.0
    }

    pub closed spec fn inv(&self) -> bool {
        layout_ok(self.slots@, self.frames@, self.head as int)
    }

    pub proof fn lemma_inv_facts(&self)
        requires
            self.inv(),
        ensures
            0 <= self.occupancy_spec(),
            0 <= self.free_spec(),
            self.buffer_len() <= MAX_PAGE_SLOTS,
            self.frames().len() == 0 ==> self.occupancy_spec() == 0,
    {
        lemma_header_positive(self.frames(), self.frames().len() as int);
    }

    /// The head of the frame list is the top frame's header index, or 0 with no frame open.
    pub proof fn lemma_head_follows_frames(&self)
        requires
            self.inv(),
        ensures
            self.head_spec() == link_of(self.frames(), self.frames().len() as int),
    {
    }

    /// Allocates a page of `size` zeroed slots; slot 0 is the occupancy counter.
    pub fn new(size: usize) -> (r: Self)
        requires
            1 <= size <= MAX_PAGE_SLOTS,
        ensures
            r.inv(),
            r.frames() == Seq::<FrameView>::empty(),
            r.buffer_len() == size,
            r.head_spec() == 0,
    {
        let mut slots: Vec<usize> = Vec::new();
        let mut i: usize = 0;
        while i < size
            invariant
                i <= size,
                slots@.len() == i,
                forall|j: int| 0 <= j < i ==> slots@[j] == 0,
            decreases size - i,
        {
            slots.push(0);
            i = i + 1;
        }
        StackPage { slots, head: 0, frames: Ghost(Seq::empty()) }
    }

    /// A page of `DEFAULT_PAGE_SLOTS` slots.
    pub fn default_page() -> (r: Self)
        ensures
            r.inv(),
            r.frames() == Seq::<FrameView>::empty(),
            r.buffer_len() == DEFAULT_PAGE_SLOTS,
    {
        Self::new(DEFAULT_PAGE_SLOTS)
    }

    /// The number of slots that open frames occupy.
    pub fn occupancy(&self) -> (r: usize)
        requires
            self.inv(),
        ensures
            r == self.occupancy_spec(),
    {
        self.slots[0]
    }

    /// The number of slots in the buffer, the counter slot included.
    pub fn size(&self) -> (r: usize)
        ensures
            r == self.buffer_len(),
    {
        self.slots.len()
    }

    /// The number of slots still free for frames.
    pub fn free_slots(&self) -> (r: usize)
        requires
            self.inv(),
        ensures
            r == self.free_spec(),
    {
        self.slots.len() - 1 - self.slots[0]
    }

    /// The head of the frame list: the top frame's header index, 0 when no frame is open.
    pub fn head(&self) -> (r: usize)
        ensures
            r == self.head_spec(),
    {
        self.head
    }

    /// `frame` is the top frame.
    pub fn is_top_frame(&self, frame: FrameIdx) -> (r: bool)
        requires
            self.inv(),
        ensures
            r == self.is_top(frame),
    {
        proof {
            if self.frames@.len() > 0 {
                lemma_header_positive(self.frames@, self.frames@.len() - 1);
            }
        }
        self.head != 0 && frame.0 >= 2 && self.head == frame.0 - 2
    }

    /// Replaces the buffer by one of `size` slots. Allowed only while no frame is open.
    pub fn grow(&mut self, size: usize)
        requires
            old(self).inv(),
            old(self).frames().len() == 0,
            1 <= size <= MAX_PAGE_SLOTS,
        ensures
            final(self).inv(),
            final(self).frames() == Seq::<FrameView>::empty(),
            final(self).buffer_len() == size,
    {
        *self = StackPage::new(size);
    }

    /// Opens a frame with room for `capacity` roots, all set to 0. Fails, leaving the page
    /// as it was, when fewer than `capacity + 2` slots are free.
    pub fn new_static_frame(&mut self, capacity: usize) -> (r: Result<FrameIdx, AllocError>)
        requires
            old(self).inv(),
        ensures
            final(self).inv(),
            final(self).buffer_len() == old(self).buffer_len(),
            old(self).free_spec() < capacity + 2 ==> {
                &&& r == Err::<FrameIdx, AllocError>(
                    AllocError::StackOverflow(capacity.saturating_add(2), old(self).buffer_len() as usize),
                )
                &&& final(self).frames() == old(self).frames()
                &&& final(self).head_spec() == old(self).head_spec()
                &&& final(self).occupancy_spec() == old(self).occupancy_spec()
            },
            old(self).free_spec() >= capacity + 2 ==> {
                &&& r == Ok::<FrameIdx, AllocError>(FrameIdx((old(self).occupancy_spec() + 3) as usize))
                &&& final(self).frames() == with_frame(old(self).frames(), false, capacity as nat)
                &&& final(self).is_top(r->Ok_0)
                &&& final(self).head_spec() == old(self).occupancy_spec() + 1
                &&& link_of(final(self).frames(), final(self).frames().len() - 1) == old(self).head_spec()
                &&& final(self).occupancy_spec() == old(self).occupancy_spec() + capacity + 2
            },
    {
        proof {
            lemma_headers_agree(old(self).frames(), with_frame(old(self).frames(), false, capacity as nat), old(self).frames().len() as int);
        }
        self.open_frame(capacity, false)
    }

    /// Opens a frame without roots, to which roots are appended as they come. Fails, leaving
    /// the page as it was, when fewer than 2 slots are free.
    pub fn new_dynamic_frame(&mut self) -> (r: Result<FrameIdx, AllocError>)
        requires
            old(self).inv(),
        ensures
            final(self).inv(),
            final(self).buffer_len() == old(self).buffer_len(),
            old(self).free_spec() < 2 ==> {
                &&& r == Err::<FrameIdx, AllocError>(
                    AllocError::StackOverflow(2, old(self).buffer_len() as usize),
                )
                &&& final(self).frames() == old(self).frames()
                &&& final(self).head_spec() == old(self).head_spec()
            },
            old(self).free_spec() >= 2 ==> {
                &&& r == Ok::<FrameIdx, AllocError>(FrameIdx((old(self).occupancy_spec() + 3) as usize))
                &&& final(self).frames() == with_frame(old(self).frames(), true, 0)
                &&& final(self).is_top(r->Ok_0)
                &&& final(self).head_spec() == old(self).occupancy_spec() + 1
                &&& link_of(final(self).frames(), final(self).frames().len() - 1) == old(self).head_spec()
            },
    {
        self.open_frame(0, true)
    }

    fn open_frame(&mut self, capacity: usize, growable: bool) -> (r: Result<FrameIdx, AllocError>)
        requires
            old(self).inv(),
        ensures
            final(self).inv(),
            final(self).buffer_len() == old(self).buffer_len(),
            old(self).free_spec() < capacity + 2 ==> {
                &&& r == Err::<FrameIdx, AllocError>(
                    AllocError::StackOverflow(capacity.saturating_add(2), old(self).buffer_len() as usize),
                )
                &&& final(self).frames() == old(self).frames()
                &&& final(self).head_spec() == old(self).head_spec()
            },
            old(self).free_spec() >= capacity + 2 ==> {
                &&& r == Ok::<FrameIdx, AllocError>(FrameIdx((old(self).occupancy_spec() + 3) as usize))
                &&& final(self).frames() == with_frame(old(self).frames(), growable, capacity as nat)
                &&& final(self).is_top(r->Ok_0)
                &&& final(self).head_spec() == old(self).occupancy_spec() + 1
                &&& link_of(final(self).frames(), final(self).frames().len() - 1) == old(self).head_spec()
            },
    {
        proof {
            self.lemma_inv_facts();
        }
        let len = self.slots.len();
        let occ = self.slots[0];
        let free = len - 1 - occ;
        if free < 2 || capacity > free - 2 {
            return Err(AllocError::StackOverflow(capacity.saturating_add(2), len));
        }
        let ghost old_s = self.slots@;
        let header = occ + 1;
        let prev = self.head;
        self.slots.set(header, capacity * 2);
        self.slots.set(header + 1, prev);
        let mut i: usize = 0;
        while i < capacity
            invariant
                i <= capacity,
                header == occ + 1,
                occ == old_s[0],
                header + 2 + capacity <= len,
                len == self.slots@.len(),
                self.slots@[0] == occ,
                forall|j: int| 1 <= j <= occ ==> self.slots@[j] == old_s[j],
                self.slots@[header as int] == capacity * 2,
                self.slots@[header + 1] == prev,
                self.head == prev,
                self.frames@ == old(self).frames@,
                forall|j: int| header + 2 <= j < header + 2 + i ==> self.slots@[j] == 0,
            decreases capacity - i,
        {
            self.slots.set(header + 2 + i, 0);
            i = i + 1;
        }
        self.slots.set(0, occ + capacity + 2);
        proof {
            lemma_layout_open(old_s, self.slots@, self.frames@, self.head as int, growable, capacity as nat);
        }
        self.head = header;
        self.frames = Ghost(with_frame(self.frames@, growable, capacity as nat));
        Ok(FrameIdx(header + 2))
    }

    /// Closes the top frame: the frame list's head goes back to the frame below, and the
    /// frame's slots become free.
    pub fn pop_frame(&mut self, frame: FrameIdx)
        requires
            old(self).inv(),
            old(self).is_top(frame),
        ensures
            final(self).inv(),
            final(self).buffer_len() == old(self).buffer_len(),
            final(self).frames() == old(self).frames().drop_last(),
            final(self).occupancy_spec() == frame.0 - 3,
            final(self).head_spec() == link_of(old(self).frames(), old(self).frames().len() - 1),
    {
        let ghost old_fr = self.frames@;
        let ghost n = old_fr.len() as int;
        proof {
            lemma_header_positive(old_fr, n - 1);
            lemma_layout_pop(self.slots@, old_fr, self.head as int);
        }
        let header = frame.0 - 2;
        let prev = self.slots[header + 1];
        self.slots.set(0, header - 1);
        self.head = prev;
        self.frames = Ghost(old_fr.drop_last());
    }

    /// Reads the frame header of an open frame: its number of roots.
    fn frame_len(&self, frame: FrameIdx) -> (r: usize)
        requires
            self.inv(),
            self.is_live(frame),
        ensures
            r == self.frames()[self.position(frame)].roots.len(),
            frame.0 + r <= self.occupancy_spec() + 1,
    {
        let ghost i = self.position(frame);
        proof {
            lemma_header_positive(self.frames@, i);
            if i + 1 < self.frames@.len() {
                lemma_header_mono(self.frames@, i + 1, self.frames@.len() as int);
            }
        }
        self.slots[frame.0 - 2] / 2
    }

    /// Stores `value` in root `offset` of an open frame. Fails, leaving the page as it
    /// was, when the frame has no root `offset`.
    pub fn set_root(&mut self, frame: FrameIdx, offset: usize, value: usize) -> (r: Result<(), AllocError>)
        requires
            old(self).inv(),
            old(self).is_live(frame),
        ensures
            final(self).inv(),
            final(self).buffer_len() == old(self).buffer_len(),
            final(self).head_spec() == old(self).head_spec(),
            ({
                let i = old(self).position(frame);
                let cap = old(self).frames()[i].roots.len();
                &&& offset >= cap ==> r == Err::<(), AllocError>(AllocError::FrameOverflow(offset, cap as usize))
                    && final(self).frames() == old(self).frames()
                &&& offset < cap ==> r == Ok::<(), AllocError>(())
                    && final(self).frames() == with_root_at(old(self).frames(), i, offset as int, value)
            }),
    {
        let cap = self.frame_len(frame);
        if offset >= cap {
            return Err(AllocError::FrameOverflow(offset, cap));
        }
        let ghost i = self.position(frame);
        self.write_root(frame.0 + offset, value, Ghost(i), Ghost(offset as int));
        Ok(())
    }

    fn write_root(&mut self, abs: usize, value: usize, i: Ghost<int>, k: Ghost<int>)
        requires
            old(self).inv(),
            in_window(old(self).frames(), i@, k@, abs as int),
        ensures
            final(self).inv(),
            final(self).buffer_len() == old(self).buffer_len(),
            final(self).head_spec() == old(self).head_spec(),
            final(self).frames() == with_root_at(old(self).frames(), i@, k@, value),
            final(self).frames() == write_slot(old(self).frames(), abs as int, value),
    {
        proof {
            lemma_layout_write(self.slots@, self.frames@, self.head as int, i@, k@, value);
        }
        self.slots.set(abs, value);
        self.frames = Ghost(with_root_at(self.frames@, i@, k@, value));
    }

    /// Appends a root holding `value` to the top frame, which must be growable. Fails,
    /// leaving the page as it was, when no slot is free.
    pub fn push_root(&mut self, frame: FrameIdx, value: usize) -> (r: Result<(), AllocError>)
        requires
            old(self).inv(),
            old(self).is_top(frame),
            old(self).frames().last().growable,
        ensures
            final(self).inv(),
            final(self).buffer_len() == old(self).buffer_len(),
            final(self).head_spec() == old(self).head_spec(),
            final(self).is_top(frame),
            old(self).free_spec() == 0 ==> r == Err::<(), AllocError>(
                AllocError::StackOverflow(1, old(self).buffer_len() as usize),
            ) && final(self).frames() == old(self).frames(),
            old(self).free_spec() > 0 ==> r == Ok::<(), AllocError>(()) && final(self).frames()
                == with_root(old(self).frames(), value),
    {
        proof {
            self.lemma_inv_facts();
        }
        let len = self.slots.len();
        let occ = self.slots[0];
        if len - 1 - occ == 0 {
            return Err(AllocError::StackOverflow(1, len));
        }
        self.append_root(frame, value);
        Ok(())
    }

    fn append_root(&mut self, frame: FrameIdx, value: usize)
        requires
            old(self).inv(),
            old(self).is_top(frame),
            old(self).free_spec() > 0,
        ensures
            final(self).inv(),
            final(self).buffer_len() == old(self).buffer_len(),
            final(self).head_spec() == old(self).head_spec(),
            final(self).is_top(frame),
            final(self).frames() == with_root(old(self).frames(), value),
            in_window(
                final(self).frames(),
                old(self).frames().len() - 1,
                old(self).frames().last().roots.len() as int,
                old(self).occupancy_spec() + 1,
            ),
            old(self).occupancy_spec() + 1 == frame.0 + old(self).frames().last().roots.len(),
    {
        let ghost old_fr = self.frames@;
        let ghost n = old_fr.len() as int;
        proof {
            lemma_layout_at(self.slots@, old_fr, self.head as int, n - 1);
        }
        let ghost old_s = self.slots@;
        let occ = self.slots[0];
        let header = frame.0 - 2;
        let abs = occ + 1;
        let count2 = self.slots[header];
        self.slots.set(abs, value);
        self.slots.set(header, count2 + 2);
        self.slots.set(0, occ + 1);
        proof {
            lemma_layout_append(old_s, self.slots@, old_fr, self.head as int, value);
        }
        self.frames = Ghost(with_root(old_fr, value));
    }

    /// Reserves a root slot, set to 0, at the end of the top frame, which must be growable,
    /// and returns its address. Fails, leaving the page as it was, when no slot is free.
    pub fn new_output(&mut self, frame: FrameIdx) -> (r: Result<Output, AllocError>)
        requires
            old(self).inv(),
            old(self).is_top(frame),
            old(self).frames().last().growable,
        ensures
            final(self).inv(),
            final(self).buffer_len() == old(self).buffer_len(),
            final(self).head_spec() == old(self).head_spec(),
            final(self).is_top(frame),
            old(self).free_spec() == 0 ==> r == Err::<Output, AllocError>(
                AllocError::StackOverflow(1, old(self).buffer_len() as usize),
            ) && final(self).frames() == old(self).frames(),
            old(self).free_spec() > 0 ==> {
                &&& r == Ok::<Output, AllocError>(Output { offset: (old(self).occupancy_spec() + 1) as usize })
                &&& final(self).frames() == with_root(old(self).frames(), 0)
                &&& in_window(
                    final(self).frames(),
                    old(self).frames().len() - 1,
                    old(self).frames().last().roots.len() as int,
                    r->Ok_0.offset as int,
                )
            },
    {
        proof {
            self.lemma_inv_facts();
        }
        let len = self.slots.len();
        let occ = self.slots[0];
        if len - 1 - occ == 0 {
            return Err(AllocError::StackOverflow(1, len));
        }
        self.append_root(frame, 0);
        Ok(Output { offset: occ + 1 })
    }

    /// The output for root `offset` of an open frame. Fails when the frame has no root
    /// `offset`.
    pub fn new_static_output(&self, frame: FrameIdx, offset: usize) -> (r: Result<Output, AllocError>)
        requires
            self.inv(),
            self.is_live(frame),
        ensures
            ({
                let i = self.position(frame);
                let cap = self.frames()[i].roots.len();
                &&& offset >= cap ==> r == Err::<Output, AllocError>(AllocError::FrameOverflow(offset, cap as usize))
                &&& offset < cap ==> r == Ok::<Output, AllocError>(Output { offset: (frame.0 + offset) as usize })
                    && in_window(self.frames(), i, offset as int, frame.0 + offset)
            }),
    {
        let cap = self.frame_len(frame);
        if offset >= cap {
            return Err(AllocError::FrameOverflow(offset, cap));
        }
        Ok(Output { offset: frame.0 + offset })
    }

    /// Stores `value` in the slot that `output` reserved. The frame that holds the slot must
    /// still be open; the frame that reserved it need not be.
    pub fn protect_output(&mut self, output: Output, value: usize)
        requires
            old(self).inv(),
            is_root_slot(old(self).frames(), output.offset as int),
        ensures
            final(self).inv(),
            final(self).buffer_len() == old(self).buffer_len(),
            final(self).head_spec() == old(self).head_spec(),
            final(self).frames() == write_slot(old(self).frames(), output.offset as int, value),
    {
        let ghost abs = output.offset as int;
        let ghost (i, k) = choose|i: int, k: int| in_window(self.frames@, i, k, abs);
        self.write_root(output.offset, value, Ghost(i), Ghost(k));
    }

    /// Root `offset` of an open frame, if the frame has that many roots.
    pub fn get_root(&self, frame: FrameIdx, offset: usize) -> (r: Option<usize>)
        requires
            self.inv(),
            self.is_live(frame),
        ensures
            ({
                let roots = self.frames()[self.position(frame)].roots;
                r == if offset < roots.len() { Some(roots[offset as int]) } else { None::<usize> }
            }),
    {
        let cap = self.frame_len(frame);
        if offset >= cap {
            return None;
        }
        Some(self.slots[frame.0 + offset])
    }

    /// The value in slot `offset`, if that slot is a root slot of an open frame. Walks the
    /// frame list from its head, as the collector does.
    pub fn read_slot(&self, offset: usize) -> (r: Option<usize>)
        requires
            self.inv(),
        ensures
            r == slot_value(self.frames(), offset as int),
    {
        let abs = offset;
        let ghost fr = self.frames@;
        let ghost n = fr.len() as int;
        let mut h = self.head;
        let ghost mut j: int = n - 1;
        proof {
            if n > 0 {
                lemma_header_positive(fr, n - 1);
            }
        }
        while h != 0
            invariant
                self.inv(),
                fr == self.frames@,
                n == fr.len(),
                -1 <= j < n,
                j >= 0 ==> h == header_of(fr, j),
                j == -1 ==> h == 0,
                j >= 0 ==> h > 0,
                abs == offset,
                forall|i: int, k: int| j < i < n ==> !#[trigger] in_window(fr, i, k, abs as int),
            decreases j + 1,
        {
            proof {
                lemma_layout_at(self.slots@, fr, self.head as int, j);
            }
            let cnt = self.slots[h] / 2;
            if h + 2 <= abs && abs - (h + 2) < cnt {
                proof {
                    let k = abs - (h + 2);
                    assert(in_window(fr, j, k, abs as int));
                    lemma_slot_of_root(fr, j, k, abs as int, 0);
                    assert(self.slots@[abs as int] == fr[j].roots[k]);
                }
                return Some(self.slots[abs]);
            }
            proof {
                assert forall|i: int, k: int| j - 1 < i < n implies !#[trigger] in_window(fr, i, k, abs as int) by {
                }
                if j > 0 {
                    lemma_header_positive(fr, j - 1);
                }
            }
            h = self.slots[h + 1];
            assert(h == link_of(fr, j));
            proof {
                j = j - 1;
            }
        }
        proof {
            assert(!is_root_slot(fr, abs as int));
        }
        None
    }

    /// Every value rooted in an open frame, found by walking the frame list from its head
    /// as the collector does: the top frame's roots first.
    pub fn roots(&self) -> (r: Vec<usize>)
        requires
            self.inv(),
        ensures
            r@ == roots_top_down(self.frames()),
    {
        let ghost fr = self.frames@;
        let ghost n = fr.len() as int;
        let mut out: Vec<usize> = Vec::new();
        let mut h = self.head;
        let ghost mut j: int = n - 1;
        proof {
            if n > 0 {
                lemma_header_positive(fr, n - 1);
            }
            assert(fr.take(n) =~= fr);
        }
        while h != 0
            invariant
                self.inv(),
                fr == self.frames@,
                n == fr.len(),
                -1 <= j < n,
                j >= 0 ==> h == header_of(fr, j),
                j == -1 ==> h == 0,
                j >= 0 ==> h > 0,
                out@ + roots_top_down(fr.take(j + 1)) == roots_top_down(fr),
            decreases j + 1,
        {
            proof {
                lemma_layout_at(self.slots@, fr, self.head as int, j);
            }
            let cnt = self.slots[h] / 2;
            let ghost out0 = out@;
            let mut k: usize = 0;
            while k < cnt
                invariant
                    self.inv(),
                    fr == self.frames@,
                    0 <= j < n,
                    h == header_of(fr, j),
                    cnt == fr[j].roots.len(),
                    h + 2 + cnt <= self.slots@.len(),
                    k <= cnt,
                    out@ == out0 + fr[j].roots.take(k as int),
                    forall|m: int| 0 <= m < cnt ==> self.slots@[h + 2 + m] == #[trigger] fr[j].roots[m],
                decreases cnt - k,
            {
                out.push(self.slots[h + 2 + k]);
                proof {
                    assert(fr[j].roots.take(k + 1) =~= fr[j].roots.take(k as int).push(fr[j].roots[k as int]));
                }
                k = k + 1;
            }
            proof {
                assert(fr[j].roots.take(cnt as int) =~= fr[j].roots);
                let t = fr.take(j + 1);
                assert(t.last() == fr[j]);
                assert(t.drop_last() =~= fr.take(j));
                assert(roots_top_down(t) == fr[j].roots + roots_top_down(fr.take(j)));
                assert(out0 + (fr[j].roots + roots_top_down(fr.take(j))) =~= (out0 + fr[j].roots)
                    + roots_top_down(fr.take(j)));
                if j > 0 {
                    lemma_header_positive(fr, j - 1);
                }
            }
            h = self.slots[h + 1];
            assert(h == link_of(fr, j));
            proof {
                j = j - 1;
            }
        }
        proof {
            assert(fr.take(0) =~= Seq::<FrameView>::empty());
            assert(out@ + Seq::<usize>::empty() =~= out@);
        }
        out
    }
}

} // verus!
