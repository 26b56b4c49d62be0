use vstd::prelude::*;
use crate::geometry::{box_fits, calculate_box_size, container_height, container_width, Size};

verus! {

/// An opaque identifier of a scene element (a container or a card).
#[derive(Clone, Copy, Debug, PartialEq, Eq, Structural, Hash)]
pub struct ElementId(pub u64);

/// Asks for the children of `container` to be laid out again: in their
/// natural order for `None`, or with room for a card at slot `k` for `Some(k)`.
#[derive(Clone, Copy, Debug, PartialEq, Eq, Structural)]
pub struct ReorderChildren {
    pub container: ElementId,
    pub target: Option<usize>,
}

/// A new declared size for a container.
#[derive(Clone, Copy, Debug, PartialEq, Eq, Structural)]
pub struct Resize {
    pub container: ElementId,
    pub size: Size,
}

/// A drag started hovering `container`; `child_world_x` holds the world
/// x-position of each of its children in their stored order, `None` where
/// the position could not be looked up.
#[derive(Debug)]
pub struct DragEnter {
    pub container: ElementId,
    pub child_world_x: Vec<Option<i64>>,
}

/// A drag stopped hovering `container`, which holds `child_count` children.
#[derive(Clone, Copy, Debug, PartialEq, Eq, Structural)]
pub struct DragLeave {
    pub container: ElementId,
    pub child_count: usize,
}

/// What one tick of events asks of the scene: new container sizes, in the
/// order of the events, and reorder requests, in the order they were made.
#[derive(Debug)]
pub struct TickOutput {
    pub resizes: Vec<Resize>,
    pub requests: Vec<ReorderChildren>,
}

/// The abstract state of a drag session.
pub struct SessionState {
    /// The container the drag hovers, if any.
    pub active: Option<ElementId>,
    /// World x-coordinates of the midpoints of the container's children.
    pub midpoints: Seq<i64>,
    /// The insertion index last resolved (the child count right after entering).
    pub last_index: nat,
}

/// Drag-reorder state of the containers: which one a drag hovers, where its
/// children's midpoints were when the drag entered, and the insertion index
/// last resolved. Tracking is on while `midpoints` is non-empty.
pub struct DragSession {
    active: Option<ElementId>,
    midpoints: Vec<i64>,
    last_index: usize,
}

impl View for DragSession {
    type V = SessionState;

    closed spec fn view(&self) -> SessionState {
        SessionState {
            active: self.active,
            midpoints: self.midpoints@,
            last_index: self.last_index as nat,
        }
    }
}

/// The state with no drag hovering any container.
pub open spec fn idle() -> SessionState {
    SessionState { active: None, midpoints: Seq::empty(), last_index: 0 }
}

/// Midpoint of a card whose left edge is at world x `x` and which is `s`
/// wide; a card whose position is unknown counts as having its midpoint at 0.
pub open spec fn midpoint_of(x: Option<i64>, s: int) -> int {
    match x {
        Some(v) => v + s / 2,
        None => 0,
    }
}

/// Every midpoint of the children at `xs` fits in `i64`.
pub open spec fn midpoints_fit(xs: Seq<Option<i64>>, s: int) -> bool {
    forall|i: int| 0 <= i < xs.len() ==> midpoint_of(#[trigger] xs[i], s) <= i64::MAX
}

/// The index at which a pointer at `x` inserts: the first `i` with
/// `x < m[i]`, or the length of `m` when there is none.
pub open spec fn insertion_index(m: Seq<i64>, x: int) -> nat
    decreases m.len(),
{
    if m.len() == 0 {
        0
    } else if x < m[0] {
        0
    } else {
        1 + insertion_index(m.drop_first(), x)
    }
}

/// The state after a drag enters a container whose children are at `xs`.
pub open spec fn entered(container: ElementId, xs: Seq<Option<i64>>, s: int) -> SessionState {
    SessionState {
        active: Some(container),
        midpoints: Seq::new(xs.len(), |i: int| midpoint_of(xs[i], s) as i64),
        last_index: xs.len(),
    }
}

/// The state and the request, if any, after the pointer moves to world x
/// `x` (`None` when it could not be projected into the world).
pub open spec fn moved(st: SessionState, x: Option<i64>) -> (SessionState, Option<ReorderChildren>) {
    if st.midpoints.len() == 0 || x is None {
        (st, None)
    } else {
        let i = insertion_index(st.midpoints, x->0 as int);
        if i == st.last_index || st.active is None {
            (st, None)
        } else {
            (
                SessionState { last_index: i, ..st },
                Some(ReorderChildren { container: st.active->0, target: Some(i as usize) }),
            )
        }
    }
}

proof fn lemma_insertion_index_is_first(m: Seq<i64>, x: int)
    ensures
        insertion_index(m, x) <= m.len(),
        forall|j: int| 0 <= j < insertion_index(m, x) ==> m[j] <= x,
        insertion_index(m, x) < m.len() ==> x < m[insertion_index(m, x) as int],
    decreases m.len(),
{
    if m.len() > 0 && !(x < m[0]) {
        let t = m.drop_first();
        lemma_insertion_index_is_first(t, x);
        assert forall|j: int| 0 <= j < insertion_index(m, x) implies m[j] <= x by {
            if j > 0 {
                assert(m[j] == t[j - 1]);
            }
        }
    }
}

/// Resolving one pointer position against one set of midpoints a second
/// time changes nothing and asks for no reflow.
pub proof fn lemma_resolution_stable(st: SessionState, x: Option<i64>)
    ensures
        moved(moved(st, x).0, x) == (moved(st, x).0, None::<ReorderChildren>),
{
}

/// The insertion index of a pointer at world x `pointer_x` among the
/// children whose midpoints are `midpoints`: the first child whose midpoint
/// lies strictly right of the pointer, or past the last child.
pub fn resolve_index(midpoints: &Vec<i64>, pointer_x: i64) -> (r: usize)
    ensures
        r == insertion_index(midpoints@, pointer_x as int),
        r <= midpoints@.len(),
        forall|j: int| 0 <= j < r ==> midpoints@[j] <= pointer_x,
        r < midpoints@.len() ==> pointer_x < midpoints@[r as int],
{
    let mut i: usize = 0;
    while i < midpoints.len() && midpoints[i] <= pointer_x
        invariant
            i <= midpoints@.len(),
            forall|j: int| 0 <= j < i ==> midpoints@[j] <= pointer_x,
        decreases midpoints@.len() - i,
    {
        i += 1;
    }
    proof {
        lemma_insertion_index_is_first(midpoints@, pointer_x as int);
        let k = insertion_index(midpoints@, pointer_x as int);
        if i < k {
            assert(midpoints@[i as int] <= pointer_x);
        } else if k < i {
            assert(midpoints@[k as int] <= pointer_x);
        }
    }
    i
}

/// Midpoint of a card `width` wide whose left edge is at world x `x`.
pub fn midpoint(x: Option<i64>, width: u64) -> (r: i64)
    requires
        midpoint_of(x, width as int) <= i64::MAX,
    ensures
        r == midpoint_of(x, width as int),
{
    match x {
        Some(v) => v + ((width / 2) as i64),
        None => 0,
    }
}

/// The declared size of a container holding `n` cards.
pub open spec fn box_size(n: int, item: Size, p: int) -> Size {
    Size {
        x: container_width(n, item.x as int, p) as u64,
        y: container_height(item.y as int, p) as u64,
    }
}

/// The new size of a container a drag enters: room for one card more.
pub open spec fn enter_resize(e: DragEnter, item: Size, p: int) -> Resize {
    Resize { container: e.container, size: box_size(e.child_world_x@.len() + 1 as int, item, p) }
}

/// The new size of a container a drag leaves: room for its own cards.
pub open spec fn leave_resize(e: DragLeave, item: Size, p: int) -> Resize {
    Resize { container: e.container, size: box_size(e.child_count as int, item, p) }
}

/// A drag entering this container can be handled within machine limits.
pub open spec fn enter_fits(e: DragEnter, item: Size, p: int) -> bool {
    &&& e.child_world_x@.len() < usize::MAX
    &&& box_fits(e.child_world_x@.len() + 1 as int, item, p)
    &&& midpoints_fit(e.child_world_x@, item.x as int)
}

/// The state after the events of `enters`, in order.
pub open spec fn after_enters(st: SessionState, enters: Seq<DragEnter>, s: int) -> SessionState {
    if enters.len() == 0 {
        st
    } else {
        entered(enters.last().container, enters.last().child_world_x@, s)
    }
}

/// The state after the events of `leaves`, in order.
pub open spec fn after_leaves(st: SessionState, leaves: Seq<DragLeave>) -> SessionState {
    if leaves.len() == 0 {
        st
    } else {
        idle()
    }
}

/// The state after the pointer moves to each of `xs` in turn, with the
/// requests made on the way.
pub open spec fn after_moves(st: SessionState, xs: Seq<Option<i64>>) -> (SessionState, Seq<ReorderChildren>)
    decreases xs.len(),
{
    if xs.len() == 0 {
        (st, Seq::empty())
    } else {
        let (st1, rs) = after_moves(st, xs.drop_last());
        let (st2, r) = moved(st1, xs.last());
        match r {
            Some(q) => (st2, rs.push(q)),
            None => (st2, rs),
        }
    }
}

impl DragSession {
    /// A session with no drag hovering any container.
    pub fn new() -> (r: DragSession)
        ensures
            r@ == idle(),
    {
        DragSession { active: None, midpoints: Vec::new(), last_index: 0 }
    }

    /// The container the drag hovers, if any.
    pub fn active(&self) -> (r: Option<ElementId>)
        ensures
            r == self@.active,
    {
        self.active
    }

    /// The midpoints captured when the drag entered.
    pub fn midpoints(&self) -> (r: &Vec<i64>)
        ensures
            r@ == self@.midpoints,
    {
        &self.midpoints
    }

    /// The insertion index last resolved.
    pub fn last_index(&self) -> (r: usize)
        ensures
            r == self@.last_index,
    {
        self.last_index
    }

    /// Starts tracking the container a drag enters: captures its children's
    /// midpoints, takes "past the last child" as the index resolved so far,
    /// and returns the container's new size, with room for one card more.
    pub fn drag_enter(&mut self, event: &DragEnter, item_size: &Size, padding: u64) -> (r: Resize)
        requires
            enter_fits(*event, *item_size, padding as int),
        ensures
            final(self)@ == entered(event.container, event.child_world_x@, item_size.x as int),
            r == enter_resize(*event, *item_size, padding as int),
    {
        let xs = &event.child_world_x;
        let n = xs.len();
        let mut midpoints: Vec<i64> = Vec::new();
        let mut i: usize = 0;
        while i < n
            invariant
                n == xs@.len(),
                i <= n,
                midpoints_fit(xs@, item_size.x as int),
                midpoints@.len() == i,
                forall|j: int|
                    0 <= j < i ==> midpoints@[j] == midpoint_of(xs@[j], item_size.x as int),
            decreases n - i,
        {
            let m = midpoint(xs[i], item_size.x);
            midpoints.push(m);
            i += 1;
        }
        proof {
            assert(midpoints@ =~= entered(event.container, xs@, item_size.x as int).midpoints);
        }
        self.active = Some(event.container);
        self.midpoints = midpoints;
        self.last_index = n;
        let size = calculate_box_size(n + 1, item_size, padding);
        Resize { container: event.container, size }
    }

    /// Stops tracking: forgets the midpoints, returns the container's size
    /// for its own cards and the request that settles them in natural order.
    pub fn drag_leave(&mut self, event: &DragLeave, item_size: &Size, padding: u64) -> (r: (
        Resize,
        ReorderChildren,
    ))
        requires
            box_fits(event.child_count as int, *item_size, padding as int),
        ensures
            final(self)@ == idle(),
            r.0 == leave_resize(*event, *item_size, padding as int),
            r.1 == (ReorderChildren { container: event.container, target: None }),
    {
        self.active = None;
        self.midpoints = Vec::new();
        self.last_index = 0;
        let size = calculate_box_size(event.child_count, item_size, padding);
        (
            Resize { container: event.container, size },
            ReorderChildren { container: event.container, target: None },
        )
    }

    /// Handles the pointer moving to world x `pointer_x` (`None` when it could
    /// not be projected into the world). While tracking, resolves the
    /// insertion index and asks for a reflow when it differs from the last.
    pub fn drag_move(&mut self, pointer_x: Option<i64>) -> (r: Option<ReorderChildren>)
        ensures
            (final(self)@, r) == moved(old(self)@, pointer_x),
    {
        if self.midpoints.len() == 0 {
            return None;
        }
        let x = match pointer_x {
            Some(x) => x,
            None => return None,
        };
        let index = resolve_index(&self.midpoints, x);
        if index == self.last_index {
            return None;
        }
        let container = match self.active {
            Some(c) => c,
            None => return None,
        };
        self.last_index = index;
        Some(ReorderChildren { container, target: Some(index) })
    }

    /// Handles one tick of events in their fixed order: every enter, then
    /// every leave, then every move.
    pub fn adjust_container(
        &mut self,
        enters: &Vec<DragEnter>,
        leaves: &Vec<DragLeave>,
        moves: &Vec<Option<i64>>,
        item_size: &Size,
        padding: u64,
    ) -> (r: TickOutput)
        requires
            forall|i: int|
                0 <= i < enters@.len() ==> enter_fits(#[trigger] enters@[i], *item_size, padding as int),
            forall|i: int|
                0 <= i < leaves@.len() ==> box_fits(
                    #[trigger] leaves@[i].child_count as int,
                    *item_size,
                    padding as int,
                ),
        ensures
            ({
                let st = after_leaves(after_enters(old(self)@, enters@, item_size.x as int), leaves@);
                &&& final(self)@ == after_moves(st, moves@).0
                &&& r.resizes@ == Seq::new(
                    enters@.len(),
                    |i: int| enter_resize(enters@[i], *item_size, padding as int),
                ) + Seq::new(
                    leaves@.len(),
                    |i: int| leave_resize(leaves@[i], *item_size, padding as int),
                )
                &&& r.requests@ == Seq::new(
                    leaves@.len(),
                    |i: int| (ReorderChildren { container: leaves@[i].container, target: None }),
                ) + after_moves(st, moves@).1
            }),
    {
        let ghost s = item_size.x as int;
        let ghost p = padding as int;
        let ghost start = self@;
        let mut resizes: Vec<Resize> = Vec::new();
        let mut requests: Vec<ReorderChildren> = Vec::new();
        let mut i: usize = 0;
        while i < enters.len()
            invariant
                i <= enters@.len(),
                s == item_size.x as int,
                p == padding as int,
                forall|k: int|
                    0 <= k < enters@.len() ==> enter_fits(#[trigger] enters@[k], *item_size, p),
                self@ == after_enters(start, enters@.take(i as int), s),
                resizes@ == Seq::new(i as nat, |k: int| enter_resize(enters@[k], *item_size, p)),
            decreases enters@.len() - i,
        {
            let resize = self.drag_enter(&enters[i], item_size, padding);
            resizes.push(resize);
            i += 1;
            proof {
                assert(enters@.take(i as int).last() == enters@[i - 1]);
                assert(resizes@ =~= Seq::new(i as nat, |k: int| enter_resize(enters@[k], *item_size, p)));
            }
        }
        assert(enters@.take(enters@.len() as int) =~= enters@);
        let ghost entered_state = self@;
        let mut i: usize = 0;
        while i < leaves.len()
            invariant
                i <= leaves@.len(),
                s == item_size.x as int,
                p == padding as int,
                forall|k: int|
                    0 <= k < leaves@.len() ==> box_fits(
                        #[trigger] leaves@[k].child_count as int,
                        *item_size,
                        p,
                    ),
                self@ == after_leaves(entered_state, leaves@.take(i as int)),
                resizes@ == Seq::new(enters@.len(), |k: int| enter_resize(enters@[k], *item_size, p))
                    + Seq::new(i as nat, |k: int| leave_resize(leaves@[k], *item_size, p)),
                requests@ == Seq::new(
                    i as nat,
                    |k: int| (ReorderChildren { container: leaves@[k].container, target: None }),
                ),
            decreases leaves@.len() - i,
        {
            let (resize, request) = self.drag_leave(&leaves[i], item_size, padding);
            resizes.push(resize);
            requests.push(request);
            i += 1;
            proof {
                assert(resizes@ =~= Seq::new(enters@.len(), |k: int| enter_resize(enters@[k], *item_size, p))
                    + Seq::new(i as nat, |k: int| leave_resize(leaves@[k], *item_size, p)));
                assert(requests@ =~= Seq::new(
                    i as nat,
                    |k: int| (ReorderChildren { container: leaves@[k].container, target: None }),
                ));
            }
        }
        assert(leaves@.take(leaves@.len() as int) =~= leaves@);
        let ghost left_state = self@;
        let ghost leave_requests = requests@;
        let mut i: usize = 0;
        while i < moves.len()
            invariant
                i <= moves@.len(),
                (self@, requests@.skip(leave_requests.len() as int)) == after_moves(left_state, moves@.take(i as int)),
                requests@.take(leave_requests.len() as int) == leave_requests,
                requests@.len() >= leave_requests.len(),
            decreases moves@.len() - i,
        {
            let ghost before = requests@;
            if let Some(request) = self.drag_move(moves[i]) {
                requests.push(request);
            }
            i += 1;
            proof {
                let prev = moves@.take(i as int);
                assert(prev.drop_last() =~= moves@.take(i - 1));
                assert(prev.last() == moves@[i - 1]);
                assert(requests@.take(leave_requests.len() as int) =~= leave_requests);
                let (st1, rs) = after_moves(left_state, prev.drop_last());
                assert(rs == before.skip(leave_requests.len() as int));
                if requests@.len() > before.len() {
                    assert(requests@.skip(leave_requests.len() as int) =~= rs.push(requests@.last()));
                } else {
                    assert(requests@.skip(leave_requests.len() as int) =~= rs);
                }
            }
        }
        proof {
            assert(moves@.take(moves@.len() as int) =~= moves@);
            assert(requests@ =~= leave_requests + requests@.skip(leave_requests.len() as int));
        }
        TickOutput { resizes, requests }
    }
}

} // verus!
