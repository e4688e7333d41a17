//! Decisions about the overlay window itself: its extended window style and
//! whether the foreground window covers the whole monitor.
use vstd::prelude::*;
use crate::placement::Rect;

verus! {

/// `WS_EX_TOOLWINDOW`: the window stays out of the taskbar and Alt+Tab.
pub const WS_EX_TOOLWINDOW: u32 = 0x0000_0080;

/// `WS_EX_NOACTIVATE`: clicking the window does not activate it.
pub const WS_EX_NOACTIVATE: u32 = 0x0800_0000;

/// `WS_EX_APPWINDOW`: the window is forced onto the taskbar.
pub const WS_EX_APPWINDOW: u32 = 0x0004_0000;

/// How far, in pixels, each edge of a window may be from the monitor's edge
/// for the window to count as full screen.
pub const FULLSCREEN_TOLERANCE: i32 = 2;

/// The extended style of a tool window that never activates and never shows
/// on the taskbar, all other bits kept.
pub open spec fn tool_window_style(ex_style: u32) -> u32 {
    (ex_style | WS_EX_TOOLWINDOW | WS_EX_NOACTIVATE) & !WS_EX_APPWINDOW
}

/// The window covers the monitor up to the tolerance on every edge.
pub open spec fn spec_fills_monitor(window: Rect, monitor: Rect) -> bool {
    &&& -FULLSCREEN_TOLERANCE <= window.left - monitor.left <= FULLSCREEN_TOLERANCE
    &&& -FULLSCREEN_TOLERANCE <= window.top - monitor.top <= FULLSCREEN_TOLERANCE
    &&& -FULLSCREEN_TOLERANCE <= window.right - monitor.right <= FULLSCREEN_TOLERANCE
    &&& -FULLSCREEN_TOLERANCE <= window.bottom - monitor.bottom <= FULLSCREEN_TOLERANCE
}

/// The style to give the overlay so it is hidden from task switchers, or
/// `None` when its current style already is that one.
pub fn overlay_tool_window_style(ex_style: u32) -> (r: Option<u32>)
    ensures
        r == (if tool_window_style(ex_style) != ex_style {
            Some(tool_window_style(ex_style))
        } else {
            None
        }),
{
    let mut new_style = ex_style;
    new_style = new_style | WS_EX_TOOLWINDOW;
    new_style = new_style | WS_EX_NOACTIVATE;
    new_style = new_style & !WS_EX_APPWINDOW;
    if new_style != ex_style {
        Some(new_style)
    } else {
        None
    }
}

/// Whether a window covers the monitor, edge by edge up to the tolerance.
pub fn fills_monitor(window: Rect, monitor: Rect) -> (r: bool)
    ensures
        r == spec_fills_monitor(window, monitor),
{
    let tolerance = FULLSCREEN_TOLERANCE as i64;
    let dl = window.left as i64 - monitor.left as i64;
    let dt = window.top as i64 - monitor.top as i64;
    let dr = window.right as i64 - monitor.right as i64;
    let db = window.bottom as i64 - monitor.bottom as i64;
    -tolerance <= dl && dl <= tolerance && -tolerance <= dt && dt <= tolerance && -tolerance <= dr
        && dr <= tolerance && -tolerance <= db && db <= tolerance
}

/// The tool-window style sets the tool-window and no-activate bits, clears
/// the app-window bit and keeps every other bit.
pub proof fn lemma_tool_window_style_bits(ex_style: u32)
    ensures
        tool_window_style(ex_style) & WS_EX_TOOLWINDOW == WS_EX_TOOLWINDOW,
        tool_window_style(ex_style) & WS_EX_NOACTIVATE == WS_EX_NOACTIVATE,
        tool_window_style(ex_style) & WS_EX_APPWINDOW == 0,
        tool_window_style(ex_style) & !(WS_EX_TOOLWINDOW | WS_EX_NOACTIVATE | WS_EX_APPWINDOW)
            == ex_style & !(WS_EX_TOOLWINDOW | WS_EX_NOACTIVATE | WS_EX_APPWINDOW),
{
    assert((ex_style | 0x80u32 | 0x0800_0000u32) & !0x0004_0000u32 & 0x80u32 == 0x80u32) by (bit_vector);
    assert((ex_style | 0x80u32 | 0x0800_0000u32) & !0x0004_0000u32 & 0x0800_0000u32 == 0x0800_0000u32)
        by (bit_vector);
    assert((ex_style | 0x80u32 | 0x0800_0000u32) & !0x0004_0000u32 & 0x0004_0000u32 == 0u32) by (bit_vector);
    assert((ex_style | 0x80u32 | 0x0800_0000u32) & !0x0004_0000u32 & !(0x80u32 | 0x0800_0000u32
        | 0x0004_0000u32) == ex_style & !(0x80u32 | 0x0800_0000u32 | 0x0004_0000u32)) by (bit_vector);
}

/// Once the overlay has the tool-window style, enforcing it again changes
/// nothing: a second enforcement asks for no new style.
pub proof fn lemma_tool_window_style_idempotent(ex_style: u32)
    ensures
        tool_window_style(tool_window_style(ex_style)) == tool_window_style(ex_style),
{
    assert(((((ex_style | 0x80u32 | 0x0800_0000u32) & !0x0004_0000u32) | 0x80u32 | 0x0800_0000u32)
        & !0x0004_0000u32) == ((ex_style | 0x80u32 | 0x0800_0000u32) & !0x0004_0000u32)) by (bit_vector);
}

/// Windows uses the dark theme for apps exactly when its `AppsUseLightTheme`
/// setting is 0.
pub fn dark_mode_from_light_theme(apps_use_light_theme: u32) -> (dark: bool)
    ensures
        dark == (apps_use_light_theme == 0),
{
    apps_use_light_theme == 0
}

/// The full-screen test spelled out: every edge of the window lies within
/// two pixels of the same edge of the monitor.
pub proof fn lemma_fills_monitor_by_edges(window: Rect, monitor: Rect)
    ensures
        spec_fills_monitor(window, monitor) <==> {
            &&& -2 <= window.left - monitor.left <= 2
            &&& -2 <= window.top - monitor.top <= 2
            &&& -2 <= window.right - monitor.right <= 2
            &&& -2 <= window.bottom - monitor.bottom <= 2
        },
{
}

/// A window exactly covering its monitor is full screen, wherever the
/// monitor is.
pub proof fn lemma_fills_own_monitor(monitor: Rect)
    ensures
        spec_fills_monitor(monitor, monitor),
{
}

/// The full-screen test depends only on the edge differences between window
/// and monitor: moving both by the same offset (to another monitor, say)
/// does not change it.
pub proof fn lemma_fills_monitor_shift(window: Rect, monitor: Rect, window2: Rect, monitor2: Rect)
    requires
        window2.left - monitor2.left == window.left - monitor.left,
        window2.top - monitor2.top == window.top - monitor.top,
        window2.right - monitor2.right == window.right - monitor.right,
        window2.bottom - monitor2.bottom == window.bottom - monitor.bottom,
    ensures
        spec_fills_monitor(window2, monitor2) == spec_fills_monitor(window, monitor),
{
}

} // verus!
