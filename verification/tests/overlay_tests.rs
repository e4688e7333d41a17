use taskbar_media_viewer::overlay::{
    dark_mode_from_light_theme, fills_monitor, overlay_tool_window_style, WS_EX_APPWINDOW, WS_EX_NOACTIVATE, WS_EX_TOOLWINDOW,
};
use taskbar_media_viewer::placement::Rect;
use taskbar_media_viewer::schedule::{
    poll, repaint_interval, taskbar_poll_interval, OverlaySchedule, FULLSCREEN_POLL_INTERVAL,
};
use taskbar_media_viewer::updates::update_check_due;

fn rect(left: i32, top: i32, right: i32, bottom: i32) -> Rect {
    Rect { left, top, right, bottom }
}

#[test]
fn tool_window_style_sets_and_clears_bits() {
    let style = overlay_tool_window_style(WS_EX_APPWINDOW | 0x100).unwrap();
    assert_eq!(style, WS_EX_TOOLWINDOW | WS_EX_NOACTIVATE | 0x100);
    assert_eq!(style, 0x0800_0180);
}

#[test]
fn tool_window_style_is_applied_once() {
    let style = overlay_tool_window_style(0).unwrap();
    assert_eq!(overlay_tool_window_style(style), None);
}

#[test]
fn fullscreen_within_tolerance() {
    let monitor = rect(0, 0, 1920, 1080);
    assert!(fills_monitor(rect(-2, 2, 1922, 1078), monitor));
    assert!(!fills_monitor(rect(-3, 0, 1920, 1080), monitor));
    assert!(!fills_monitor(rect(0, 0, 1920, 1040), monitor));
}

#[test]
fn poll_is_due_once_per_interval() {
    let mut last = None;
    assert!(poll(&mut last, 1000, 250));
    assert_eq!(last, Some(1000));
    assert!(!poll(&mut last, 1249, 250));
    assert_eq!(last, Some(1000));
    assert!(poll(&mut last, 1250, 250));
    assert_eq!(last, Some(1250));
}

#[test]
fn frame_start_switches_to_fast_polling_after_a_change() {
    let mut s = OverlaySchedule::new(0);
    let first = s.begin_frame(0);
    assert!(first.poll_taskbar && !first.high_frequency);
    assert!(!s.begin_frame(500).poll_taskbar);
    assert!(s.begin_frame(800).poll_taskbar);
    s.placement_changed(800);
    let fast = s.begin_frame(920);
    assert!(fast.high_frequency && fast.poll_taskbar);
    let during = s.begin_frame(1000);
    assert!(during.high_frequency && !during.poll_taskbar);
    let after = s.begin_frame(2800);
    assert!(!after.high_frequency && after.poll_taskbar);
    let idle = s.begin_frame(2920);
    assert!(!idle.high_frequency && !idle.poll_taskbar);
    assert_eq!(taskbar_poll_interval(true), 120);
    assert_eq!(taskbar_poll_interval(false), 800);
}

#[test]
fn periodic_checks_use_their_intervals() {
    let mut s = OverlaySchedule::new(0);
    assert!(s.fullscreen_poll_due(10));
    assert!(!s.fullscreen_poll_due(10 + FULLSCREEN_POLL_INTERVAL - 1));
    assert!(s.fullscreen_poll_due(10 + FULLSCREEN_POLL_INTERVAL));
    assert!(s.style_enforce_due(0));
    assert!(!s.style_enforce_due(1999));
    assert!(s.theme_poll_due(0));
    assert!(s.theme_poll_due(3000));
    assert!(s.hover_poll_due(0));
    assert!(!s.hover_poll_due(32));
    assert!(s.hover_poll_due(33));
}

#[test]
fn passthrough_command_sent_only_on_change() {
    let mut s = OverlaySchedule::new(0);
    assert!(s.set_mouse_passthrough(true));
    assert!(!s.set_mouse_passthrough(true));
    assert!(s.set_mouse_passthrough(false));
    assert_eq!(s.mouse_passthrough_enabled, Some(false));
}

#[test]
fn hover_toggles_passthrough() {
    let mut s = OverlaySchedule::new(0);
    assert_eq!(s.hover_sampled(false), Some(true));
    assert_eq!(s.mouse_passthrough_enabled, Some(true));
    assert_eq!(s.hover_sampled(false), None);
    assert_eq!(s.hover_sampled(true), Some(false));
    assert_eq!(s.hover_sampled(true), None);
    assert_eq!(s.mouse_passthrough_enabled, Some(false));
    assert_eq!(s.hover_sampled(false), Some(true));
    assert!(!s.enter_fullscreen());
    assert!(!s.over_interactive);
}

#[test]
fn passthrough_restored_after_fullscreen_while_over_controls() {
    let mut s = OverlaySchedule::new(0);
    assert_eq!(s.hover_sampled(true), Some(false));
    assert!(s.enter_fullscreen());
    assert_eq!(s.hover_sampled(true), Some(false));
    assert!(s.over_interactive);
}

#[test]
fn fullscreen_forces_passthrough() {
    let mut s = OverlaySchedule::new(0);
    s.hover_sampled(true);
    assert!(s.enter_fullscreen());
    assert_eq!(s.mouse_passthrough_enabled, Some(true));
    assert!(!s.over_interactive);
}

#[test]
fn repaint_fast_while_moving() {
    assert_eq!(repaint_interval(true, false), 16);
    assert_eq!(repaint_interval(false, true), 16);
    assert_eq!(repaint_interval(false, false), 160);
}

#[test]
fn update_check_after_an_hour() {
    assert!(!update_check_due(3600, 0));
    assert!(update_check_due(3601, 0));
    assert!(!update_check_due(100, 100));
}

#[test]
fn dark_mode_when_apps_do_not_use_light_theme() {
    assert!(dark_mode_from_light_theme(0));
    assert!(!dark_mode_from_light_theme(1));
}

#[test]
fn fullscreen_frame_does_nothing_but_pass_clicks_through() {
    let mut s = OverlaySchedule::new(0);
    s.foreground_is_fullscreen = true;
    let p = s.frame_plan(100);
    assert!(!p.enforce_style && !p.refresh_media && !p.poll_theme && !p.draw && !p.sample_hover);
    assert_eq!(p.passthrough, Some(true));
    assert_eq!(p.repaint_after, Some(FULLSCREEN_POLL_INTERVAL));
    assert_eq!(s.frame_plan(120).passthrough, None);
    assert!(s.last_style_enforce.is_none());
}

#[test]
fn normal_frame_runs_due_tasks() {
    let mut s = OverlaySchedule::new(0);
    let p = s.frame_plan(0);
    assert!(p.enforce_style && p.refresh_media && p.poll_theme && p.draw && p.sample_hover);
    assert_eq!(p.passthrough, None);
    assert_eq!(p.repaint_after, None);
    let q = s.frame_plan(40);
    assert!(!q.enforce_style && !q.poll_theme && q.sample_hover && q.draw);
}
