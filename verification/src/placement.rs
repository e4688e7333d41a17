//! Where on the taskbar the overlay goes.
//!
//! The taskbar's bounds come from its window, or else from the difference
//! between the monitor and its work area. Inside them, every visible element
//! of the taskbar blocks a horizontal stretch; the overlay takes the widest
//! stretch that no element blocks.
use vstd::prelude::*;

verus! {

/// A screen rectangle in physical pixels, as Win32 reports it.
#[derive(Clone, Copy, Debug)]
pub struct Rect {
    pub left: i32,
    pub top: i32,
    pub right: i32,
    pub bottom: i32,
}

/// A free horizontal stretch of the taskbar: it starts at `x`, is `width`
/// wide, and spans the taskbar's height.
#[derive(Clone, Copy, Debug)]
pub struct TaskbarGap {
    pub x: i32,
    pub width: i32,
    pub y: i32,
    pub height: i32,
}

/// One element of the taskbar's accessibility tree: its bounding rectangle
/// and whether it reported itself off screen.
#[derive(Clone, Copy, Debug)]
pub struct ElementBounds {
    pub rect: Rect,
    pub offscreen: bool,
}

pub open spec fn min_int(a: int, b: int) -> int {
    if a <= b {
        a
    } else {
        b
    }
}

pub open spec fn max_int(a: int, b: int) -> int {
    if a >= b {
        a
    } else {
        b
    }
}

pub open spec fn rect_width(r: Rect) -> int {
    r.right - r.left
}

pub open spec fn rect_height(r: Rect) -> int {
    r.bottom - r.top
}

/// The window rectangle of the taskbar is used when it has a positive size.
pub open spec fn window_rect_usable(r: Rect) -> bool {
    rect_width(r) > 0 && rect_height(r) > 0
}

/// The strip of the monitor that its work area leaves out, looked for at the
/// bottom, then the top, the left and the right.
pub open spec fn work_area_strip(monitor: Rect, work: Rect) -> Option<Rect> {
    if monitor.bottom - work.bottom > 0 {
        Some(Rect { left: monitor.left, top: work.bottom, right: monitor.right, bottom: monitor.bottom })
    } else if work.top - monitor.top > 0 {
        Some(Rect { left: monitor.left, top: monitor.top, right: monitor.right, bottom: work.top })
    } else if work.left - monitor.left > 0 {
        Some(Rect { left: monitor.left, top: monitor.top, right: work.left, bottom: monitor.bottom })
    } else if monitor.right - work.right > 0 {
        Some(Rect { left: work.right, top: monitor.top, right: monitor.right, bottom: monitor.bottom })
    } else {
        None
    }
}

/// The horizontal stretch `[left, right)` of the taskbar that an element
/// blocks, or `None` when the element is ignored: off screen, empty, nearly
/// as wide as the taskbar, outside it, or less than a third of its height
/// once clamped to it.
pub open spec fn element_interval(taskbar: Rect, e: ElementBounds) -> Option<(int, int)> {
    let cl = max_int(e.rect.left as int, taskbar.left as int);
    let cr = min_int(e.rect.right as int, taskbar.right as int);
    let ct = max_int(e.rect.top as int, taskbar.top as int);
    let cb = min_int(e.rect.bottom as int, taskbar.bottom as int);
    if e.offscreen || rect_width(e.rect) <= 0 || rect_height(e.rect) <= 0 || rect_width(e.rect)
        >= rect_width(taskbar) - 50 || cl >= cr || ct >= cb || cb - ct < rect_height(taskbar) / 3 {
        None
    } else {
        Some((cl, cr))
    }
}

/// Point `p` lies in the stretch an element blocks.
pub open spec fn interval_holds(iv: Option<(int, int)>, p: int) -> bool {
    match iv {
        Some((l, r)) => l <= p < r,
        None => false,
    }
}

/// Point `p` is blocked by one of the first `n` elements.
pub open spec fn blocked_upto(taskbar: Rect, elements: Seq<ElementBounds>, n: int, p: int) -> bool {
    exists|i: int| 0 <= i < n && #[trigger] interval_holds(element_interval(taskbar, elements[i]), p)
}

/// Point `p` is blocked by some element.
pub open spec fn blocked(taskbar: Rect, elements: Seq<ElementBounds>, p: int) -> bool {
    blocked_upto(taskbar, elements, elements.len() as int, p)
}

/// One of the first `n` elements blocks a stretch.
pub open spec fn admitted_upto(taskbar: Rect, elements: Seq<ElementBounds>, n: int) -> bool {
    exists|i: int| 0 <= i < n && #[trigger] element_interval(taskbar, elements[i]) is Some
}

/// Some element blocks a stretch.
pub open spec fn any_admitted(taskbar: Rect, elements: Seq<ElementBounds>) -> bool {
    admitted_upto(taskbar, elements, elements.len() as int)
}

/// `[x, x + w)` lies inside the taskbar and holds no blocked point.
pub open spec fn is_free_run(taskbar: Rect, elements: Seq<ElementBounds>, x: int, w: int) -> bool {
    &&& taskbar.left <= x
    &&& x + w <= taskbar.right
    &&& forall|p: int| x <= p < x + w ==> !#[trigger] blocked(taskbar, elements, p)
}

/// `[x, x + w)` is a free stretch, no free stretch is wider, and no equally
/// wide one starts further left.
pub open spec fn is_widest_free_run(taskbar: Rect, elements: Seq<ElementBounds>, x: int, w: int) -> bool {
    &&& is_free_run(taskbar, elements, x, w)
    &&& forall|x2: int, w2: int| #[trigger] is_free_run(taskbar, elements, x2, w2) ==> w2 <= w
    &&& forall|x2: int| #[trigger] is_free_run(taskbar, elements, x2, w) ==> x <= x2
}

/// What the overlay's gap is for a taskbar and its elements: the whole
/// taskbar when no element blocks anything, else the widest, leftmost free
/// stretch; always spanning the taskbar's height.
pub open spec fn is_taskbar_gap_for(taskbar: Rect, elements: Seq<ElementBounds>, r: TaskbarGap) -> bool {
    &&& r.y == taskbar.top
    &&& r.height == rect_height(taskbar)
    &&& !any_admitted(taskbar, elements) ==> r.x == taskbar.left && r.width == rect_width(taskbar)
    &&& any_admitted(taskbar, elements) ==> r.width >= 0 && is_widest_free_run(
        taskbar,
        elements,
        r.x as int,
        r.width as int,
    )
}

/// Point `p` lies in one of the first `n` blocks `[l, r)`.
pub open spec fn covered_upto(blocks: Seq<(i32, i32)>, n: int, p: int) -> bool {
    exists|k: int| 0 <= k < n && #[trigger] blocks[k].0 <= p && p < blocks[k].1
}

/// Point `p` lies in one of the blocks.
pub open spec fn covered(blocks: Seq<(i32, i32)>, p: int) -> bool {
    covered_upto(blocks, blocks.len() as int, p)
}

/// Every block is non-empty and lies inside `[lo, hi]`.
pub open spec fn blocks_within(blocks: Seq<(i32, i32)>, lo: int, hi: int) -> bool {
    forall|k: int| 0 <= k < blocks.len() ==> lo <= #[trigger] blocks[k].0 && blocks[k].0 < blocks[k].1 && blocks[k].1 <= hi
}

/// The taskbar's bounds from its window rectangle, when that has a positive
/// size.
pub fn taskbar_rect_from_window(window: Rect) -> (r: Option<Rect>)
    ensures
        r == (if window_rect_usable(window) {
            Some(window)
        } else {
            None
        }),
{
    let width = window.right as i64 - window.left as i64;
    let height = window.bottom as i64 - window.top as i64;
    if width > 0 && height > 0 {
        Some(window)
    } else {
        None
    }
}

/// The taskbar's bounds as the strip of the monitor outside its work area.
pub fn taskbar_rect_from_work_area(monitor: Rect, work: Rect) -> (r: Option<Rect>)
    ensures
        r == work_area_strip(monitor, work),
{
    let left = work.left as i64 - monitor.left as i64;
    let top = work.top as i64 - monitor.top as i64;
    let right = monitor.right as i64 - work.right as i64;
    let bottom = monitor.bottom as i64 - work.bottom as i64;
    if bottom > 0 {
        return Some(Rect { left: monitor.left, top: work.bottom, right: monitor.right, bottom: monitor.bottom });
    }
    if top > 0 {
        return Some(Rect { left: monitor.left, top: monitor.top, right: monitor.right, bottom: work.top });
    }
    if left > 0 {
        return Some(Rect { left: monitor.left, top: monitor.top, right: work.left, bottom: monitor.bottom });
    }
    if right > 0 {
        return Some(Rect { left: work.right, top: monitor.top, right: monitor.right, bottom: monitor.bottom });
    }
    None
}

/// The stretch of the taskbar that an element blocks; see
/// [`element_interval`].
pub fn element_block(taskbar: Rect, element: ElementBounds) -> (r: Option<(i32, i32)>)
    ensures
        r is None <==> element_interval(taskbar, element) is None,
        r matches Some((l, rr)) ==> element_interval(taskbar, element) == Some((l as int, rr as int))
            && taskbar.left <= l && l < rr && rr <= taskbar.right,
{
    let rect = element.rect;
    let width = rect.right as i64 - rect.left as i64;
    let height = rect.bottom as i64 - rect.top as i64;
    let taskbar_width = taskbar.right as i64 - taskbar.left as i64;
    let taskbar_height = taskbar.bottom as i64 - taskbar.top as i64;
    if element.offscreen || width <= 0 || height <= 0 || width >= taskbar_width - 50 {
        return None;
    }
    let clamped_left = if rect.left >= taskbar.left { rect.left } else { taskbar.left };
    let clamped_right = if rect.right <= taskbar.right { rect.right } else { taskbar.right };
    let clamped_top = if rect.top >= taskbar.top { rect.top } else { taskbar.top };
    let clamped_bottom = if rect.bottom <= taskbar.bottom { rect.bottom } else { taskbar.bottom };
    if clamped_left >= clamped_right || clamped_top >= clamped_bottom {
        return None;
    }
    assert(taskbar_height > 0);
    let span = clamped_bottom as i64 - clamped_top as i64;
    if span < taskbar_height / 3 {
        return None;
    }
    Some((clamped_left, clamped_right))
}

/// The stretches that the elements block, in the order of the elements.
fn collect_blocks(taskbar: Rect, elements: &Vec<ElementBounds>) -> (blocks: Vec<(i32, i32)>)
    ensures
        blocks_within(blocks@, taskbar.left as int, taskbar.right as int),
        forall|p: int| covered(blocks@, p) <==> blocked(taskbar, elements@, p),
        blocks@.len() == 0 <==> !any_admitted(taskbar, elements@),
{
    let mut blocks: Vec<(i32, i32)> = Vec::new();
    let n = elements.len();
    let mut i: usize = 0;
    while i < n
        invariant
            n == elements@.len(),
            i <= n,
            blocks_within(blocks@, taskbar.left as int, taskbar.right as int),
            forall|p: int| covered(blocks@, p) <==> blocked_upto(taskbar, elements@, i as int, p),
            blocks@.len() == 0 <==> !admitted_upto(taskbar, elements@, i as int),
        decreases n - i,
    {
        let ghost before = blocks@;
        let e = elements[i];
        let b = element_block(taskbar, e);
        match b {
            Some(iv) => {
                blocks.push(iv);
                assert forall|p: int| covered(blocks@, p) <==> blocked_upto(taskbar, elements@, i + 1, p) by {
                    if covered(blocks@, p) {
                        let k = choose|k: int| 0 <= k < blocks@.len() && #[trigger] blocks@[k].0 <= p && p < blocks@[k].1;
                        if k < before.len() {
                            assert(blocks@[k] == before[k]);
                            assert(covered(before, p));
                        } else {
                            assert(interval_holds(element_interval(taskbar, elements@[i as int]), p));
                        }
                    }
                    if blocked_upto(taskbar, elements@, i + 1, p) {
                        let j = choose|j: int| 0 <= j < i + 1 && #[trigger] interval_holds(element_interval(taskbar, elements@[j]), p);
                        if j < i {
                            assert(blocked_upto(taskbar, elements@, i as int, p));
                            assert(covered(before, p));
                            let k = choose|k: int| 0 <= k < before.len() && #[trigger] before[k].0 <= p && p < before[k].1;
                            assert(blocks@[k] == before[k]);
                        } else {
                            let last = blocks@.len() - 1;
                            assert(blocks@[last].0 <= p && p < blocks@[last].1);
                        }
                    }
                }
                assert(element_interval(taskbar, elements@[i as int]) is Some);
            },
            None => {
                assert forall|p: int| covered(blocks@, p) <==> blocked_upto(taskbar, elements@, i + 1, p) by {
                    if blocked_upto(taskbar, elements@, i + 1, p) {
                        let j = choose|j: int| 0 <= j < i + 1 && #[trigger] interval_holds(element_interval(taskbar, elements@[j]), p);
                        assert(j < i);
                        assert(blocked_upto(taskbar, elements@, i as int, p));
                    }
                    if covered(blocks@, p) {
                        assert(covered(before, p));
                        assert(blocked_upto(taskbar, elements@, i as int, p));
                        let j = choose|j: int| 0 <= j < i && #[trigger] interval_holds(element_interval(taskbar, elements@[j]), p);
                    }
                }
                proof {
                    if admitted_upto(taskbar, elements@, i + 1) {
                        let j = choose|j: int| 0 <= j < i + 1 && #[trigger] element_interval(taskbar, elements@[j]) is Some;
                        assert(j < i);
                        assert(admitted_upto(taskbar, elements@, i as int));
                    }
                }
            },
        }
        i = i + 1;
    }
    blocks
}

/// Blocks ordered by their left edge.
pub open spec fn sorted_by_left(blocks: Seq<(i32, i32)>) -> bool {
    forall|a: int, b: int| 0 <= a < b < blocks.len() ==> #[trigger] blocks[a].0 <= #[trigger] blocks[b].0
}

/// Two sequences of blocks hold the same blocks, in any order.
pub open spec fn same_blocks(s: Seq<(i32, i32)>, t: Seq<(i32, i32)>) -> bool {
    &&& forall|k: int| 0 <= k < s.len() ==> t.contains(#[trigger] s[k])
    &&& forall|k: int| 0 <= k < t.len() ==> s.contains(#[trigger] t[k])
}

/// Sequences that hold the same blocks cover the same points and keep the
/// same bounds.
proof fn lemma_same_blocks_cover(s: Seq<(i32, i32)>, t: Seq<(i32, i32)>, lo: int, hi: int)
    requires
        same_blocks(s, t),
    ensures
        forall|p: int| covered(s, p) <==> covered(t, p),
        blocks_within(s, lo, hi) ==> blocks_within(t, lo, hi),
{
    assert forall|p: int| covered(s, p) <==> covered(t, p) by {
        if covered(s, p) {
            let k = choose|k: int| 0 <= k < s.len() && #[trigger] s[k].0 <= p && p < s[k].1;
            assert(t.contains(s[k]));
            let j = choose|j: int| 0 <= j < t.len() && t[j] == s[k];
            assert(t[j].0 <= p && p < t[j].1);
        }
        if covered(t, p) {
            let k = choose|k: int| 0 <= k < t.len() && #[trigger] t[k].0 <= p && p < t[k].1;
            assert(s.contains(t[k]));
            let j = choose|j: int| 0 <= j < s.len() && s[j] == t[k];
            assert(s[j].0 <= p && p < s[j].1);
        }
    }
    if blocks_within(s, lo, hi) {
        assert forall|k: int| 0 <= k < t.len() implies lo <= #[trigger] t[k].0 && t[k].0 < t[k].1 && t[k].1 <= hi by {
            assert(s.contains(t[k]));
            let j = choose|j: int| 0 <= j < s.len() && s[j] == t[k];
        }
    }
}

/// The blocks ordered by their left edge (insertion sort; blocks with equal
/// left edges keep their order).
fn sort_blocks(blocks: &Vec<(i32, i32)>) -> (sorted: Vec<(i32, i32)>)
    ensures
        sorted@.len() == blocks@.len(),
        sorted_by_left(sorted@),
        same_blocks(sorted@, blocks@),
{
    let n = blocks.len();
    let mut sorted: Vec<(i32, i32)> = Vec::new();
    let mut i: usize = 0;
    while i < n
        invariant
            n == blocks@.len(),
            i <= n,
            sorted@.len() == i,
            sorted_by_left(sorted@),
            same_blocks(sorted@, blocks@.subrange(0, i as int)),
        decreases n - i,
    {
        let item = blocks[i];
        let m = sorted.len();
        let mut pos: usize = 0;
        while pos < m && sorted[pos].0 <= item.0
            invariant
                m == sorted@.len(),
                pos <= m,
                forall|k: int| 0 <= k < pos ==> #[trigger] sorted@[k].0 <= item.0,
            decreases m - pos,
        {
            pos = pos + 1;
        }
        let ghost old_sorted = sorted@;
        sorted.insert(pos, item);
        proof {
            old_sorted.insert_ensures(pos as int, item);
            let new_sorted = sorted@;
            assert(forall|k: int| 0 <= k < pos ==> new_sorted[k] == old_sorted[k]);
            assert(forall|k: int| pos < k < new_sorted.len() ==> new_sorted[k] == old_sorted[k - 1]) by {
                assert forall|k: int| pos < k < new_sorted.len() implies new_sorted[k] == old_sorted[k - 1] by {
                    assert(new_sorted[(k - 1) + 1] == old_sorted[k - 1]);
                }
            }
            assert forall|a: int, b: int| 0 <= a < b < new_sorted.len() implies #[trigger] new_sorted[a].0 <= #[trigger] new_sorted[b].0 by {
                if b < pos {
                } else if b == pos {
                    assert(old_sorted[a].0 <= item.0);
                } else if a < pos {
                    assert(new_sorted[b] == old_sorted[b - 1]);
                    assert(old_sorted[a].0 <= old_sorted[b - 1].0 || a == b - 1);
                } else if a == pos {
                    assert(pos < m);
                    assert(old_sorted[pos as int].0 > item.0);
                    assert(new_sorted[b] == old_sorted[b - 1]);
                    assert(pos as int == b - 1 || old_sorted[pos as int].0 <= old_sorted[b - 1].0);
                } else {
                    assert(new_sorted[a] == old_sorted[a - 1]);
                    assert(new_sorted[b] == old_sorted[b - 1]);
                    assert(old_sorted[a - 1].0 <= old_sorted[b - 1].0);
                }
            }
            let prefix = blocks@.subrange(0, i + 1);
            let old_prefix = blocks@.subrange(0, i as int);
            assert forall|k: int| 0 <= k < new_sorted.len() implies prefix.contains(#[trigger] new_sorted[k]) by {
                if k == pos {
                    assert(prefix[i as int] == item);
                } else {
                    let o = if k < pos { k } else { k - 1 };
                    assert(new_sorted[k] == old_sorted[o]);
                    assert(old_prefix.contains(old_sorted[o]));
                    let j = choose|j: int| 0 <= j < old_prefix.len() && old_prefix[j] == old_sorted[o];
                    assert(prefix[j] == old_prefix[j]);
                }
            }
            assert forall|k: int| 0 <= k < prefix.len() implies new_sorted.contains(#[trigger] prefix[k]) by {
                if k == i {
                    assert(new_sorted[pos as int] == item);
                } else {
                    assert(prefix[k] == old_prefix[k]);
                    assert(old_sorted.contains(old_prefix[k]));
                    let j = choose|j: int| 0 <= j < old_sorted.len() && old_sorted[j] == old_prefix[k];
                    if j < pos {
                        assert(new_sorted[j] == old_sorted[j]);
                    } else {
                        assert(new_sorted[j + 1] == old_sorted[j]);
                    }
                }
            }
        }
        i = i + 1;
    }
    assert(blocks@.subrange(0, n as int) =~= blocks@);
    sorted
}

/// Consecutive blocks leave a non-empty gap between them: every block ends
/// before the next one starts.
pub open spec fn separated(blocks: Seq<(i32, i32)>) -> bool {
    forall|a: int, b: int| 0 <= a < b < blocks.len() ==> #[trigger] blocks[a].1 < #[trigger] blocks[b].0
}

/// Some block of `s` has left edge `x`.
pub open spec fn has_left_edge(s: Seq<(i32, i32)>, x: i32) -> bool {
    exists|j: int| 0 <= j < s.len() && #[trigger] s[j].0 == x
}

/// Some block of `s` has right edge `x`.
pub open spec fn has_right_edge(s: Seq<(i32, i32)>, x: i32) -> bool {
    exists|j: int| 0 <= j < s.len() && #[trigger] s[j].1 == x
}

/// Each edge of a block of `t` is an edge of a block of `s`.
pub open spec fn edges_from(t: Seq<(i32, i32)>, s: Seq<(i32, i32)>) -> bool {
    forall|k: int| 0 <= k < t.len() ==> has_left_edge(s, #[trigger] t[k].0) && has_right_edge(s, t[k].1)
}

/// Overlapping or touching blocks, ordered by their left edge, merged into
/// separated blocks that cover the same points.
fn merge_blocks(sorted: &Vec<(i32, i32)>) -> (merged: Vec<(i32, i32)>)
    requires
        sorted@.len() > 0,
        sorted_by_left(sorted@),
        forall|k: int| 0 <= k < sorted@.len() ==> #[trigger] sorted@[k].0 < sorted@[k].1,
    ensures
        merged@.len() > 0,
        forall|k: int| 0 <= k < merged@.len() ==> #[trigger] merged@[k].0 < merged@[k].1,
        separated(merged@),
        edges_from(merged@, sorted@),
        forall|p: int| covered(merged@, p) <==> covered(sorted@, p),
{
    let n = sorted.len();
    let mut merged: Vec<(i32, i32)> = Vec::new();
    merged.push(sorted[0]);
    assert(covered_upto(sorted@, 0, 0) == false);
    assert forall|p: int| covered(merged@, p) <==> covered_upto(sorted@, 1, p) by {
        if covered(merged@, p) {
            assert(sorted@[0].0 <= p && p < sorted@[0].1);
        }
        if covered_upto(sorted@, 1, p) {
            assert(merged@[0] == sorted@[0]);
            assert(merged@[0].0 <= p && p < merged@[0].1);
        }
    }
    assert(merged@[0].0 == sorted@[0].0 && merged@[0].1 == sorted@[0].1);
    assert(has_left_edge(sorted@, merged@[0].0) && has_right_edge(sorted@, merged@[0].1));
    let mut i: usize = 1;
    while i < n
        invariant
            n == sorted@.len(),
            1 <= i <= n,
            sorted_by_left(sorted@),
            forall|k: int| 0 <= k < sorted@.len() ==> #[trigger] sorted@[k].0 < sorted@[k].1,
            merged@.len() > 0,
            forall|k: int| 0 <= k < merged@.len() ==> #[trigger] merged@[k].0 < merged@[k].1,
            separated(merged@),
            edges_from(merged@, sorted@),
            forall|j: int| i <= j < n ==> merged@.last().0 <= #[trigger] sorted@[j].0,
            forall|p: int| covered(merged@, p) <==> covered_upto(sorted@, i as int, p),
        decreases n - i,
    {
        let current = sorted[i];
        let last_index = merged.len() - 1;
        let last = merged[last_index];
        let ghost before = merged@;
        if current.0 <= last.1 {
            let right = if current.1 >= last.1 { current.1 } else { last.1 };
            merged.set(last_index, (last.0, right));
            proof {
                let after = merged@;
                assert forall|a: int, b: int| 0 <= a < b < after.len() implies #[trigger] after[a].1 < #[trigger] after[b].0 by {
                    assert(before[a].1 < before[b].0);
                }
                assert forall|k: int| 0 <= k < after.len() implies has_left_edge(sorted@, #[trigger] after[k].0) && has_right_edge(sorted@, after[k].1) by {
                    assert(has_left_edge(sorted@, before[k].0));
                    assert(has_right_edge(sorted@, before[k].1));
                    let j0 = choose|j: int| 0 <= j < sorted@.len() && #[trigger] sorted@[j].0 == before[k].0;
                    let j1 = choose|j: int| 0 <= j < sorted@.len() && #[trigger] sorted@[j].1 == before[k].1;
                    assert(sorted@[j0].0 == after[k].0);
                    if k < last_index {
                        assert(after[k] == before[k]);
                        assert(sorted@[j1].1 == after[k].1);
                    } else {
                        if current.1 >= last.1 {
                            assert(sorted@[i as int].1 == after[k].1);
                        } else {
                            assert(sorted@[j1].1 == after[k].1);
                        }
                    }
                }
                assert forall|j: int| i + 1 <= j < n implies after.last().0 <= #[trigger] sorted@[j].0 by {
                    assert(before.last().0 <= sorted@[j].0);
                }
                assert forall|p: int| covered(after, p) <==> covered_upto(sorted@, i + 1, p) by {
                    if covered(after, p) {
                        let k = choose|k: int| 0 <= k < after.len() && #[trigger] after[k].0 <= p && p < after[k].1;
                        if k < last_index {
                            assert(before[k] == after[k]);
                            assert(covered(before, p));
                        } else if p < last.1 {
                            assert(before[k].0 <= p && p < before[k].1);
                            assert(covered(before, p));
                        } else {
                            assert(sorted@[i as int].0 <= p && p < sorted@[i as int].1);
                        }
                    }
                    if covered_upto(sorted@, i + 1, p) {
                        let j = choose|j: int| 0 <= j < i + 1 && #[trigger] sorted@[j].0 <= p && p < sorted@[j].1;
                        if j < i {
                            assert(covered_upto(sorted@, i as int, p));
                            assert(covered(before, p));
                            let k = choose|k: int| 0 <= k < before.len() && #[trigger] before[k].0 <= p && p < before[k].1;
                            if k < last_index {
                                assert(after[k] == before[k]);
                            } else {
                                assert(after[k].0 <= p && p < after[k].1);
                            }
                        } else {
                            assert(before.last().0 <= sorted@[i as int].0);
                            assert(after[last_index as int].0 <= p && p < after[last_index as int].1);
                        }
                    }
                }
            }
        } else {
            merged.push(current);
            proof {
                let after = merged@;
                assert forall|a: int, b: int| 0 <= a < b < after.len() implies #[trigger] after[a].1 < #[trigger] after[b].0 by {
                    if b < before.len() {
                        assert(before[a].1 < before[b].0);
                    } else if a < last_index {
                        assert(before[a].1 < before[last_index as int].0);
                    }
                }
                assert forall|k: int| 0 <= k < after.len() implies has_left_edge(sorted@, #[trigger] after[k].0) && has_right_edge(sorted@, after[k].1) by {
                    if k < before.len() {
                        assert(after[k] == before[k]);
                        assert(has_left_edge(sorted@, before[k].0));
                        assert(has_right_edge(sorted@, before[k].1));
                        let j0 = choose|j: int| 0 <= j < sorted@.len() && #[trigger] sorted@[j].0 == before[k].0;
                        let j1 = choose|j: int| 0 <= j < sorted@.len() && #[trigger] sorted@[j].1 == before[k].1;
                        assert(sorted@[j0].0 == after[k].0);
                        assert(sorted@[j1].1 == after[k].1);
                    } else {
                        assert(sorted@[i as int] == after[k]);
                        assert(sorted@[i as int].0 == after[k].0);
                        assert(sorted@[i as int].1 == after[k].1);
                    }
                }
                assert forall|j: int| i + 1 <= j < n implies after.last().0 <= #[trigger] sorted@[j].0 by {
                    assert(sorted@[i as int].0 <= sorted@[j].0);
                }
                assert forall|p: int| covered(after, p) <==> covered_upto(sorted@, i + 1, p) by {
                    if covered(after, p) {
                        let k = choose|k: int| 0 <= k < after.len() && #[trigger] after[k].0 <= p && p < after[k].1;
                        if k < before.len() {
                            assert(before[k] == after[k]);
                            assert(covered(before, p));
                        } else {
                            assert(sorted@[i as int].0 <= p && p < sorted@[i as int].1);
                        }
                    }
                    if covered_upto(sorted@, i + 1, p) {
                        let j = choose|j: int| 0 <= j < i + 1 && #[trigger] sorted@[j].0 <= p && p < sorted@[j].1;
                        if j < i {
                            assert(covered_upto(sorted@, i as int, p));
                            assert(covered(before, p));
                            let k = choose|k: int| 0 <= k < before.len() && #[trigger] before[k].0 <= p && p < before[k].1;
                            assert(after[k] == before[k]);
                        } else {
                            let k = after.len() - 1;
                            assert(after[k].0 <= p && p < after[k].1);
                        }
                    }
                }
            }
        }
        i = i + 1;
    }
    merged
}

/// Where the `k`-th gap between separated blocks starts: the left end of the
/// range for the first gap, else the right edge of the block before it.
pub open spec fn gap_start(blocks: Seq<(i32, i32)>, lo: int, k: int) -> int {
    if k == 0 {
        lo
    } else {
        blocks[k - 1].1 as int
    }
}

/// Where the `k`-th gap ends: the left edge of the block after it, or the
/// right end of the range for the last gap.
pub open spec fn gap_end(blocks: Seq<(i32, i32)>, hi: int, k: int) -> int {
    if k == blocks.len() {
        hi
    } else {
        blocks[k].0 as int
    }
}

/// `[x, x + w)` lies inside `[lo, hi]` and holds no covered point.
pub open spec fn is_free_in(blocks: Seq<(i32, i32)>, lo: int, hi: int, x: int, w: int) -> bool {
    &&& lo <= x
    &&& x + w <= hi
    &&& forall|p: int| x <= p < x + w ==> !#[trigger] covered(blocks, p)
}

/// The blocks are non-empty, separated and lie in `[lo, hi]`.
pub open spec fn well_spread(blocks: Seq<(i32, i32)>, lo: int, hi: int) -> bool {
    &&& blocks.len() > 0
    &&& separated(blocks)
    &&& blocks_within(blocks, lo, hi)
}

/// Gaps start further right the later they come.
proof fn lemma_gap_starts_increase(blocks: Seq<(i32, i32)>, lo: int, hi: int, a: int, b: int)
    requires
        well_spread(blocks, lo, hi),
        0 <= a < b <= blocks.len(),
    ensures
        gap_start(blocks, lo, a) < gap_start(blocks, lo, b),
{
    assert(blocks[b - 1].0 < blocks[b - 1].1);
    if a > 0 {
        if a < b - 1 {
            assert(blocks[a - 1].1 < blocks[b - 1].0);
        }
    }
}

/// No point of a gap is covered, and the gap lies in `[lo, hi]`.
proof fn lemma_gap_free(blocks: Seq<(i32, i32)>, lo: int, hi: int, k: int)
    requires
        well_spread(blocks, lo, hi),
        0 <= k <= blocks.len(),
    ensures
        lo <= gap_start(blocks, lo, k),
        gap_end(blocks, hi, k) <= hi,
        forall|p: int| gap_start(blocks, lo, k) <= p < gap_end(blocks, hi, k) ==> !#[trigger] covered(blocks, p),
{
    if k > 0 {
        assert(lo <= blocks[k - 1].0 && blocks[k - 1].0 < blocks[k - 1].1);
    }
    if k < blocks.len() {
        assert(lo <= blocks[k].0 && blocks[k].1 <= hi);
    }
    assert forall|p: int| gap_start(blocks, lo, k) <= p < gap_end(blocks, hi, k) implies !#[trigger] covered(blocks, p) by {
        if covered(blocks, p) {
            let b = choose|b: int| 0 <= b < blocks.len() && #[trigger] blocks[b].0 <= p && p < blocks[b].1;
            if b < k {
                if b < k - 1 {
                    assert(blocks[b].1 < blocks[k - 1].0);
                    assert(blocks[k - 1].0 < blocks[k - 1].1);
                }
            } else {
                if b > k {
                    assert(blocks[k].1 < blocks[b].0);
                    assert(blocks[k].0 < blocks[k].1);
                }
            }
        }
    }
}

/// A free stretch of positive width lies inside one gap; the search starts
/// at gap `k`, all blocks before which start at or left of `x`.
proof fn lemma_free_run_in_gap(blocks: Seq<(i32, i32)>, lo: int, hi: int, x: int, w: int, k: int) -> (g: int)
    requires
        well_spread(blocks, lo, hi),
        is_free_in(blocks, lo, hi, x, w),
        w > 0,
        0 <= k <= blocks.len(),
        forall|j: int| 0 <= j < k ==> #[trigger] blocks[j].0 <= x,
    ensures
        0 <= g <= blocks.len(),
        gap_start(blocks, lo, g) <= x,
        x + w <= gap_end(blocks, hi, g),
    decreases blocks.len() - k,
{
    if k == blocks.len() || x < blocks[k].0 {
        assert(!covered(blocks, x));
        if k > 0 {
            assert(blocks[k - 1].0 <= x);
            if x < blocks[k - 1].1 {
                assert(covered(blocks, x));
            }
        }
        if k < blocks.len() {
            let q = blocks[k].0 as int;
            if q < x + w {
                assert(blocks[k].0 < blocks[k].1);
                assert(covered(blocks, q));
                assert(!covered(blocks, q));
            }
        }
        k
    } else {
        lemma_free_run_in_gap(blocks, lo, hi, x, w, k + 1)
    }
}

/// The bounds of the `k`-th gap; see [`gap_start`] and [`gap_end`].
fn gap_bounds(lo: i32, hi: i32, blocks: &Vec<(i32, i32)>, k: usize) -> (r: (i32, i32))
    requires
        well_spread(blocks@, lo as int, hi as int),
        k <= blocks@.len(),
    ensures
        r.0 == gap_start(blocks@, lo as int, k as int),
        r.1 == gap_end(blocks@, hi as int, k as int),
        lo <= r.0 <= hi,
        lo <= r.1 <= hi,
{
    proof {
        lemma_gap_free(blocks@, lo as int, hi as int, k as int);
        if k < blocks@.len() {
            assert(lo <= blocks@[k as int].0 && blocks@[k as int].1 <= hi);
        }
        if k > 0 {
            assert(lo <= blocks@[k - 1].0 && blocks@[k - 1].1 <= hi);
        }
    }
    let start: i32 = if k == 0 {
        lo
    } else {
        blocks[k - 1].1
    };
    let end: i32 = if k == blocks.len() {
        hi
    } else {
        blocks[k].0
    };
    (start, end)
}

/// The widest gap between separated blocks in `[lo, hi]`, the leftmost one
/// among equally wide ones: its start and width.
fn widest_gap(lo: i32, hi: i32, blocks: &Vec<(i32, i32)>) -> (r: (i32, i32))
    requires
        well_spread(blocks@, lo as int, hi as int),
        hi - lo <= i32::MAX,
    ensures
        r.1 >= 0,
        is_free_in(blocks@, lo as int, hi as int, r.0 as int, r.1 as int),
        forall|x: int, w: int| #[trigger] is_free_in(blocks@, lo as int, hi as int, x, w) ==> w <= r.1,
        forall|x: int| #[trigger] is_free_in(blocks@, lo as int, hi as int, x, r.1 as int) ==> r.0 <= x,
{
    let ghost m = blocks@;
    let n = blocks.len();
    let mut best_x: i32 = lo;
    let mut best_w: i32 = 0;
    let ghost mut bk: int = 0;
    let mut k: usize = 0;
    assert(blocks@[0].0 < blocks@[0].1);
    while k < n
        invariant
            m == blocks@,
            n == m.len(),
            well_spread(m, lo as int, hi as int),
            hi - lo <= i32::MAX,
            k <= n,
            best_w >= 0,
            forall|j: int| 0 <= j < k ==> gap_end(m, hi as int, j) - gap_start(m, lo as int, j) <= best_w,
            best_w == 0 ==> best_x == lo,
            best_w > 0 ==> 0 <= bk < k && best_x == gap_start(m, lo as int, bk) && gap_end(m, hi as int, bk)
                - gap_start(m, lo as int, bk) == best_w && forall|j: int| 0 <= j < bk ==> gap_end(m, hi as int, j)
                - gap_start(m, lo as int, j) < best_w,
        decreases n - k,
    {
        let (start, end) = gap_bounds(lo, hi, blocks, k);
        let width: i64 = end as i64 - start as i64;
        if width > best_w as i64 {
            best_w = width as i32;
            best_x = start;
            proof {
                bk = k as int;
            }
        }
        k = k + 1;
    }
    let (start, end) = gap_bounds(lo, hi, blocks, n);
    let width: i64 = end as i64 - start as i64;
    if width > best_w as i64 {
        best_w = width as i32;
        best_x = start;
        proof {
            bk = n as int;
        }
    }
    proof {
        assert(blocks@[0].0 < blocks@[0].1 && blocks@[0].1 <= hi);
        if best_w > 0 {
            lemma_gap_free(m, lo as int, hi as int, bk);
        }
        assert forall|x: int, w: int| #[trigger] is_free_in(m, lo as int, hi as int, x, w) implies w <= best_w by {
            if w > 0 {
                let g = lemma_free_run_in_gap(m, lo as int, hi as int, x, w, 0);
            }
        }
        assert forall|x: int| #[trigger] is_free_in(m, lo as int, hi as int, x, best_w as int) implies best_x <= x by {
            if best_w > 0 {
                let g = lemma_free_run_in_gap(m, lo as int, hi as int, x, best_w as int, 0);
                if g < bk {
                    assert(false);
                } else if g > bk {
                    lemma_gap_starts_increase(m, lo as int, hi as int, bk, g);
                }
            }
        }
    }
    (best_x, best_w)
}

/// The widest stretch of the taskbar that no element blocks.
///
/// When no element blocks anything, the whole taskbar. Otherwise the stretch
/// is free, no free stretch is wider, and no equally wide one starts further
/// left. It always spans the taskbar's height.
pub fn find_largest_taskbar_gap(taskbar: Rect, elements: &Vec<ElementBounds>) -> (r: TaskbarGap)
    requires
        i32::MIN <= rect_width(taskbar) <= i32::MAX,
        i32::MIN <= rect_height(taskbar) <= i32::MAX,
    ensures
        is_taskbar_gap_for(taskbar, elements@, r),
{
    let taskbar_width = (taskbar.right as i64 - taskbar.left as i64) as i32;
    let taskbar_height = (taskbar.bottom as i64 - taskbar.top as i64) as i32;
    let blocks = collect_blocks(taskbar, elements);
    if blocks.len() == 0 {
        return TaskbarGap { x: taskbar.left, width: taskbar_width, y: taskbar.top, height: taskbar_height };
    }
    let sorted = sort_blocks(&blocks);
    proof {
        lemma_same_blocks_cover(blocks@, sorted@, taskbar.left as int, taskbar.right as int);
    }
    let merged = merge_blocks(&sorted);
    let ghost lo = taskbar.left as int;
    let ghost hi = taskbar.right as int;
    proof {
        assert forall|k: int| 0 <= k < merged@.len() implies lo <= #[trigger] merged@[k].0 && merged@[k].0
            < merged@[k].1 && merged@[k].1 <= hi by {
            assert(has_left_edge(sorted@, merged@[k].0));
            assert(has_right_edge(sorted@, merged@[k].1));
            let a = choose|j: int| 0 <= j < sorted@.len() && #[trigger] sorted@[j].0 == merged@[k].0;
            let b = choose|j: int| 0 <= j < sorted@.len() && #[trigger] sorted@[j].1 == merged@[k].1;
            assert(blocks_within(sorted@, lo, hi));
            assert(lo <= sorted@[a].0);
            assert(lo <= sorted@[b].0 && sorted@[b].1 <= hi);
        }
        assert(blocks@[0].0 < blocks@[0].1);
    }
    let (x, width) = widest_gap(taskbar.left, taskbar.right, &merged);
    proof {
        assert forall|x2: int, w2: int| #[trigger] is_free_run(taskbar, elements@, x2, w2) == is_free_in(merged@, lo, hi, x2, w2) by {
            if is_free_run(taskbar, elements@, x2, w2) {
                assert forall|p: int| x2 <= p < x2 + w2 implies !#[trigger] covered(merged@, p) by {
                    assert(!blocked(taskbar, elements@, p));
                }
            }
            if is_free_in(merged@, lo, hi, x2, w2) {
                assert forall|p: int| x2 <= p < x2 + w2 implies !#[trigger] blocked(taskbar, elements@, p) by {
                    assert(!covered(merged@, p));
                }
            }
        }
    }
    TaskbarGap { x, width, y: taskbar.top, height: taskbar_height }
}

/// The widest free stretch depends only on which points the elements block:
/// two element lists that block the same points (the same list in another
/// order, say) have the same widest, leftmost free stretch.
pub proof fn lemma_widest_free_run_unique(
    taskbar: Rect,
    first: Seq<ElementBounds>,
    second: Seq<ElementBounds>,
    x1: int,
    w1: int,
    x2: int,
    w2: int,
)
    requires
        forall|p: int| blocked(taskbar, first, p) == blocked(taskbar, second, p),
        is_widest_free_run(taskbar, first, x1, w1),
        is_widest_free_run(taskbar, second, x2, w2),
    ensures
        x1 == x2,
        w1 == w2,
{
    assert forall|x: int, w: int| #[trigger] is_free_run(taskbar, first, x, w) == is_free_run(taskbar, second, x, w) by {
        if is_free_run(taskbar, first, x, w) {
            assert forall|p: int| x <= p < x + w implies !#[trigger] blocked(taskbar, second, p) by {
                assert(!blocked(taskbar, first, p));
            }
        }
        if is_free_run(taskbar, second, x, w) {
            assert forall|p: int| x <= p < x + w implies !#[trigger] blocked(taskbar, first, p) by {
                assert(!blocked(taskbar, second, p));
            }
        }
    }
    assert(is_free_run(taskbar, second, x1, w1));
    assert(is_free_run(taskbar, first, x2, w2));
    assert(w1 == w2);
    assert(is_free_run(taskbar, second, x1, w2));
    assert(is_free_run(taskbar, first, x2, w1));
}

/// Elements that block nothing do not move the gap: adding elements that are
/// off screen, empty, nearly as wide as the taskbar, outside it or too flat
/// (anywhere in the list) leaves the gap as it was.
pub proof fn lemma_ignored_elements_keep_gap(
    taskbar: Rect,
    elements: Seq<ElementBounds>,
    more: Seq<ElementBounds>,
    r1: TaskbarGap,
    r2: TaskbarGap,
)
    requires
        forall|i: int| 0 <= i < elements.len() ==> more.contains(#[trigger] elements[i]),
        forall|i: int|
            0 <= i < more.len() ==> elements.contains(#[trigger] more[i]) || element_interval(taskbar, more[i]) is None,
        is_taskbar_gap_for(taskbar, elements, r1),
        is_taskbar_gap_for(taskbar, more, r2),
    ensures
        r1 == r2,
{
    assert forall|p: int| blocked(taskbar, elements, p) == blocked(taskbar, more, p) by {
        if blocked(taskbar, elements, p) {
            let i = choose|i: int| 0 <= i < elements.len() && #[trigger] interval_holds(element_interval(taskbar, elements[i]), p);
            assert(more.contains(elements[i]));
            let j = choose|j: int| 0 <= j < more.len() && more[j] == elements[i];
            assert(interval_holds(element_interval(taskbar, more[j]), p));
        }
        if blocked(taskbar, more, p) {
            let j = choose|j: int| 0 <= j < more.len() && #[trigger] interval_holds(element_interval(taskbar, more[j]), p);
            assert(elements.contains(more[j]));
            let i = choose|i: int| 0 <= i < elements.len() && elements[i] == more[j];
            assert(interval_holds(element_interval(taskbar, elements[i]), p));
        }
    }
    if any_admitted(taskbar, elements) {
        let i = choose|i: int| 0 <= i < elements.len() && #[trigger] element_interval(taskbar, elements[i]) is Some;
        assert(more.contains(elements[i]));
        let j = choose|j: int| 0 <= j < more.len() && more[j] == elements[i];
        assert(element_interval(taskbar, more[j]) is Some);
    }
    if any_admitted(taskbar, more) {
        let j = choose|j: int| 0 <= j < more.len() && #[trigger] element_interval(taskbar, more[j]) is Some;
        assert(elements.contains(more[j]));
        let i = choose|i: int| 0 <= i < elements.len() && elements[i] == more[j];
        assert(element_interval(taskbar, elements[i]) is Some);
    }
    if any_admitted(taskbar, elements) {
        lemma_widest_free_run_unique(taskbar, elements, more, r1.x as int, r1.width as int, r2.x as int, r2.width as int);
    }
}

/// Which elements block what, spelled out edge by edge: an element blocks
/// exactly when it is on screen, has a positive width and height, is
/// narrower than the taskbar's width minus 50, and its rectangle clamped to
/// the taskbar is non-empty and at least a third of the taskbar's height
/// tall; it then blocks from the larger of the two left edges to the smaller
/// of the two right edges.
pub proof fn lemma_element_interval_by_edges(taskbar: Rect, e: ElementBounds)
    ensures
        ({
            let w = e.rect.right - e.rect.left;
            let h = e.rect.bottom - e.rect.top;
            let l = if e.rect.left >= taskbar.left { e.rect.left as int } else { taskbar.left as int };
            let r = if e.rect.right <= taskbar.right { e.rect.right as int } else { taskbar.right as int };
            let t = if e.rect.top >= taskbar.top { e.rect.top as int } else { taskbar.top as int };
            let b = if e.rect.bottom <= taskbar.bottom { e.rect.bottom as int } else { taskbar.bottom as int };
            let blocks = !e.offscreen && w > 0 && h > 0 && w < (taskbar.right - taskbar.left) - 50 && l < r && t
                < b && b - t >= (taskbar.bottom - taskbar.top) / 3;
            &&& blocks ==> element_interval(taskbar, e) == Some((l, r))
            &&& !blocks ==> element_interval(taskbar, e) is None
        }),
{
}

/// A blocked stretch always lies inside the taskbar, inside the element's own
/// horizontal extent, and is non-empty.
pub proof fn lemma_element_interval_within(taskbar: Rect, e: ElementBounds)
    ensures
        element_interval(taskbar, e) matches Some((l, r)) ==> {
            &&& taskbar.left <= l && l < r && r <= taskbar.right
            &&& e.rect.left <= l && r <= e.rect.right
        },
{
}

/// The taskbar's window rectangle is used exactly when it is wider and
/// taller than zero.
pub proof fn lemma_window_rect_usable_by_edges(r: Rect)
    ensures
        window_rect_usable(r) <==> (r.right > r.left && r.bottom > r.top),
{
}

/// `[x, x + w)` lies inside the taskbar and shares no point with the stretch
/// any element blocks, said element by element.
pub open spec fn clear_of_elements(taskbar: Rect, elements: Seq<ElementBounds>, x: int, w: int) -> bool {
    &&& taskbar.left <= x
    &&& x + w <= taskbar.right
    &&& forall|i: int|
        0 <= i < elements.len() ==> match #[trigger] element_interval(taskbar, elements[i]) {
            Some((l, r)) => w <= 0 || x + w <= l || r <= x,
            None => true,
        }
}

/// The gap, said element by element: it lies inside the taskbar and overlaps
/// no element's blocked stretch; no stretch clear of all elements is wider,
/// and none as wide starts further left.
pub proof fn lemma_gap_against_elements(taskbar: Rect, elements: Seq<ElementBounds>, g: TaskbarGap)
    requires
        is_taskbar_gap_for(taskbar, elements, g),
        any_admitted(taskbar, elements),
    ensures
        g.width >= 0,
        clear_of_elements(taskbar, elements, g.x as int, g.width as int),
        forall|x: int, w: int| #[trigger] clear_of_elements(taskbar, elements, x, w) ==> w <= g.width,
        forall|x: int| #[trigger] clear_of_elements(taskbar, elements, x, g.width as int) ==> g.x <= x,
{
    assert forall|x: int, w: int| #[trigger] clear_of_elements(taskbar, elements, x, w) <==> is_free_run(taskbar, elements, x, w) by {
        if clear_of_elements(taskbar, elements, x, w) {
            assert forall|p: int| x <= p < x + w implies !#[trigger] blocked(taskbar, elements, p) by {
                if blocked(taskbar, elements, p) {
                    let i = choose|i: int| 0 <= i < elements.len() && #[trigger] interval_holds(element_interval(taskbar, elements[i]), p);
                    assert(0 <= i < elements.len());
                }
            }
        }
        if is_free_run(taskbar, elements, x, w) {
            assert forall|i: int|
                0 <= i < elements.len() implies match #[trigger] element_interval(taskbar, elements[i]) {
                    Some((l, r)) => w <= 0 || x + w <= l || r <= x,
                    None => true,
                } by {
                if let Some((l, r)) = element_interval(taskbar, elements[i]) {
                    if !(w <= 0 || x + w <= l || r <= x) {
                        let p = if x >= l { x } else { l };
                        assert(interval_holds(element_interval(taskbar, elements[i]), p));
                        assert(blocked(taskbar, elements, p));
                    }
                }
            }
        }
    }
}

/// The strip outside the work area, spelled out: it is looked for at the
/// bottom, the top, the left and the right of the monitor in that order, and
/// spans the monitor except for the work area on that side.
pub proof fn lemma_work_area_strip_by_edges(monitor: Rect, work: Rect)
    ensures
        work.bottom < monitor.bottom ==> work_area_strip(monitor, work) == Some(
            Rect { left: monitor.left, top: work.bottom, right: monitor.right, bottom: monitor.bottom },
        ),
        work.bottom >= monitor.bottom && work.top > monitor.top ==> work_area_strip(monitor, work) == Some(
            Rect { left: monitor.left, top: monitor.top, right: monitor.right, bottom: work.top },
        ),
        work.bottom >= monitor.bottom && work.top <= monitor.top && work.left > monitor.left ==> work_area_strip(
            monitor,
            work,
        ) == Some(Rect { left: monitor.left, top: monitor.top, right: work.left, bottom: monitor.bottom }),
        work.bottom >= monitor.bottom && work.top <= monitor.top && work.left <= monitor.left && work.right
            < monitor.right ==> work_area_strip(monitor, work) == Some(
            Rect { left: work.right, top: monitor.top, right: monitor.right, bottom: monitor.bottom },
        ),
        work.bottom >= monitor.bottom && work.top <= monitor.top && work.left <= monitor.left && work.right
            >= monitor.right ==> work_area_strip(monitor, work) is None,
{
}

} // verus!
