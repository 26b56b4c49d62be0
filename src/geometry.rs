use vstd::prelude::*;

verus! {

/// A two-dimensional extent: the size of a card or of a container.
#[derive(Clone, Copy, Debug, PartialEq, Eq, Structural)]
pub struct Size {
    pub x: u64,
    pub y: u64,
}

/// Width of a container holding `n` items of width `s`, with `p` of padding
/// before, between and after them.
pub open spec fn container_width(n: int, s: int, p: int) -> int {
    (s + p) * n + p
}

/// Height of a container whose items are `s` high, with `p` above and below.
pub open spec fn container_height(s: int, p: int) -> int {
    s + 2 * p
}

/// Left edge of slot `i` in a row of `n` slots centred on the container's
/// origin. Half of the container width is rounded down.
pub open spec fn slot_offset(n: int, i: int, s: int, p: int) -> int {
    p + (s + p) * i - container_width(n, s, p) / 2
}

/// A row of `n` items keeps every coordinate within `i64`.
pub open spec fn width_fits(n: int, s: int, p: int) -> bool {
    container_width(n, s, p) <= i64::MAX
}

/// A container of `n` items has a size whose both sides fit in `i64`.
pub open spec fn box_fits(n: int, item: Size, p: int) -> bool {
    width_fits(n, item.x as int, p) && container_height(item.y as int, p) <= i64::MAX
}

proof fn lemma_width_bounds(n: int, s: int, p: int)
    requires
        0 <= n,
        0 <= s,
        0 <= p,
    ensures
        0 <= (s + p) * n <= container_width(n, s, p),
        p <= container_width(n, s, p),
        n >= 1 ==> s + p <= container_width(n, s, p),
        n == 0 ==> container_width(n, s, p) == p,
{
    assert(n == 0 ==> (s + p) * n == 0) by (nonlinear_arith);
    assert(0 <= (s + p) * n) by (nonlinear_arith)
        requires
            0 <= n,
            0 <= s + p,
    ;
    assert(n >= 1 ==> s + p <= (s + p) * n) by (nonlinear_arith)
        requires
            0 <= s + p,
    ;
}

/// A container's width grows strictly with the number of cards it holds, for
/// cards and padding of positive size.
pub proof fn lemma_box_width_strictly_increasing(n1: int, n2: int, s: int, p: int)
    requires
        0 <= n1 < n2,
        s > 0,
        p > 0,
    ensures
        container_width(n1, s, p) < container_width(n2, s, p),
{
    assert((s + p) * n1 < (s + p) * n2) by (nonlinear_arith)
        requires
            n1 < n2,
            s + p > 0,
    ;
}

/// The slots of one row are spaced exactly one card width plus one padding
/// apart, so for cards and padding not both empty their left edges are
/// distinct and strictly increasing from left to right.
pub proof fn lemma_slots_evenly_spaced(n: int, i: int, j: int, s: int, p: int)
    requires
        0 <= i < n,
        0 <= j < n,
        s >= 0,
        p >= 0,
    ensures
        slot_offset(n, j, s, p) - slot_offset(n, i, s, p) == (j - i) * (s + p),
        s + p > 0 && i < j ==> slot_offset(n, i, s, p) < slot_offset(n, j, s, p),
{
    assert((s + p) * j - (s + p) * i == (j - i) * (s + p)) by (nonlinear_arith);
    assert(s + p > 0 && i < j ==> (j - i) * (s + p) > 0) by (nonlinear_arith);
}

/// Size of a container holding `items` cards of size `item_size`.
pub fn calculate_box_size(items: usize, item_size: &Size, padding: u64) -> (r: Size)
    requires
        box_fits(items as int, *item_size, padding as int),
    ensures
        r.x == container_width(items as int, item_size.x as int, padding as int),
        r.y == container_height(item_size.y as int, padding as int),
{
    proof {
        lemma_width_bounds(items as int, item_size.x as int, padding as int);
    }
    let x = if items == 0 {
        padding
    } else {
        (item_size.x + padding) * (items as u64) + padding
    };
    let y = item_size.y + 2 * padding;
    Size { x, y }
}

/// Left edge of the card at `index` in a row of `length` slots.
pub fn calculate_child_translation(length: usize, index: usize, item_size: &Size, padding: u64) -> (r: i64)
    requires
        index <= length,
        width_fits(length as int, item_size.x as int, padding as int),
    ensures
        r == slot_offset(length as int, index as int, item_size.x as int, padding as int),
{
    let ghost s = item_size.x as int;
    let ghost p = padding as int;
    proof {
        lemma_width_bounds(length as int, s, p);
        assert((s + p) * (index as int) <= (s + p) * (length as int)) by (nonlinear_arith)
            requires
                index <= length,
                0 <= s + p,
        ;
        lemma_width_bounds(index as int, s, p);
    }
    if length == 0 {
        return (padding as i64) - ((padding / 2) as i64);
    }
    let step = item_size.x + padding;
    let width = step * (length as u64) + padding;
    let left = padding + step * (index as u64);
    (left as i64) - ((width / 2) as i64)
}

} // verus!
