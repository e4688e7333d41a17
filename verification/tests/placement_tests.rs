use taskbar_media_viewer::placement::{
    element_block, find_largest_taskbar_gap, taskbar_rect_from_window, taskbar_rect_from_work_area,
    ElementBounds, Rect,
};

fn rect(left: i32, top: i32, right: i32, bottom: i32) -> Rect {
    Rect { left, top, right, bottom }
}

fn element(left: i32, top: i32, right: i32, bottom: i32) -> ElementBounds {
    ElementBounds { rect: rect(left, top, right, bottom), offscreen: false }
}

fn taskbar() -> Rect {
    rect(0, 1032, 1920, 1080)
}

fn same_rect(a: Rect, b: Rect) -> bool {
    a.left == b.left && a.top == b.top && a.right == b.right && a.bottom == b.bottom
}

#[test]
fn window_rect_used_only_with_positive_size() {
    let r = taskbar_rect_from_window(rect(0, 1032, 1920, 1080)).unwrap();
    assert!(same_rect(r, taskbar()));
    assert!(taskbar_rect_from_window(rect(10, 10, 10, 50)).is_none());
    assert!(taskbar_rect_from_window(rect(10, 50, 20, 40)).is_none());
}

#[test]
fn work_area_strip_found_at_bottom_first() {
    let monitor = rect(0, 0, 1920, 1080);
    let r = taskbar_rect_from_work_area(monitor, rect(0, 0, 1920, 1032)).unwrap();
    assert!(same_rect(r, rect(0, 1032, 1920, 1080)));
}

#[test]
fn work_area_strip_on_other_edges() {
    let monitor = rect(0, 0, 1920, 1080);
    let top = taskbar_rect_from_work_area(monitor, rect(0, 40, 1920, 1080)).unwrap();
    assert!(same_rect(top, rect(0, 0, 1920, 40)));
    let left = taskbar_rect_from_work_area(monitor, rect(60, 0, 1920, 1080)).unwrap();
    assert!(same_rect(left, rect(0, 0, 60, 1080)));
    let right = taskbar_rect_from_work_area(monitor, rect(0, 0, 1860, 1080)).unwrap();
    assert!(same_rect(right, rect(1860, 0, 1920, 1080)));
    assert!(taskbar_rect_from_work_area(monitor, monitor).is_none());
}

#[test]
fn element_block_filters_and_clamps() {
    let tb = taskbar();
    assert_eq!(element_block(tb, element(100, 1032, 148, 1080)), Some((100, 148)));
    assert_eq!(element_block(tb, element(-20, 1000, 30, 1100)), Some((0, 30)));
    let mut hidden = element(100, 1032, 148, 1080);
    hidden.offscreen = true;
    assert_eq!(element_block(tb, hidden), None);
    assert_eq!(element_block(tb, element(100, 1070, 148, 1075)), None);
    assert_eq!(element_block(tb, element(0, 1032, 1900, 1080)), None);
    assert_eq!(element_block(tb, element(100, 1032, 100, 1080)), None);
    assert_eq!(element_block(tb, element(2000, 1032, 2100, 1080)), None);
}

#[test]
fn no_elements_gives_whole_taskbar() {
    let gap = find_largest_taskbar_gap(taskbar(), &Vec::new());
    assert_eq!((gap.x, gap.width, gap.y, gap.height), (0, 1920, 1032, 48));
}

#[test]
fn only_ignored_elements_gives_whole_taskbar() {
    let mut hidden = element(300, 1032, 400, 1080);
    hidden.offscreen = true;
    let gap = find_largest_taskbar_gap(taskbar(), &vec![hidden, element(0, 1032, 1900, 1080)]);
    assert_eq!((gap.x, gap.width), (0, 1920));
}

#[test]
fn widest_gap_between_merged_elements() {
    let mut hidden = element(300, 1032, 400, 1080);
    hidden.offscreen = true;
    let elements = vec![
        element(1700, 1032, 1920, 1080),
        element(850, 1032, 900, 1080),
        element(0, 1032, 48, 1080),
        hidden,
        element(880, 1032, 950, 1080),
        element(800, 1032, 850, 1080),
        element(400, 1070, 500, 1075),
    ];
    let gap = find_largest_taskbar_gap(taskbar(), &elements);
    assert_eq!((gap.x, gap.width, gap.y, gap.height), (48, 752, 1032, 48));
}

#[test]
fn leftmost_of_equally_wide_gaps_wins() {
    let elements = vec![element(100, 1032, 200, 1080), element(1720, 1032, 1820, 1080), element(910, 1032, 1010, 1080)];
    let gap = find_largest_taskbar_gap(taskbar(), &elements);
    assert_eq!((gap.x, gap.width), (200, 710));
}

#[test]
fn trailing_gap_can_win() {
    let elements = vec![element(0, 1032, 300, 1080)];
    let gap = find_largest_taskbar_gap(taskbar(), &elements);
    assert_eq!((gap.x, gap.width), (300, 1620));
}

#[test]
fn fully_blocked_taskbar_gives_empty_gap_at_left() {
    let elements = vec![element(0, 1032, 1000, 1080), element(990, 1032, 1920, 1080)];
    let gap = find_largest_taskbar_gap(taskbar(), &elements);
    assert_eq!((gap.x, gap.width), (0, 0));
}

#[test]
fn gap_does_not_depend_on_element_order() {
    let elements = vec![
        element(0, 1032, 48, 1080),
        element(800, 1032, 850, 1080),
        element(850, 1032, 900, 1080),
        element(1700, 1032, 1920, 1080),
    ];
    let mut reversed = elements.clone();
    reversed.reverse();
    let a = find_largest_taskbar_gap(taskbar(), &elements);
    let b = find_largest_taskbar_gap(taskbar(), &reversed);
    assert_eq!((a.x, a.width), (b.x, b.width));
    assert_eq!((a.x, a.width), (900, 800));
}

#[test]
fn ignored_elements_do_not_move_the_gap() {
    let base = vec![element(0, 1032, 48, 1080), element(1700, 1032, 1920, 1080)];
    let mut hidden = element(300, 1032, 400, 1080);
    hidden.offscreen = true;
    let mut more = vec![hidden, element(500, 1070, 600, 1075), element(0, 1032, 1900, 1080), element(2000, 1032, 2100, 1080)];
    more.extend(base.iter().copied());
    let a = find_largest_taskbar_gap(taskbar(), &base);
    let b = find_largest_taskbar_gap(taskbar(), &more);
    assert_eq!((a.x, a.width, a.y, a.height), (b.x, b.width, b.y, b.height));
    assert_eq!((a.x, a.width), (48, 1652));
}
