//! The timing decisions the overlay takes on every frame: when to re-measure
//! the taskbar, check for full-screen apps, re-apply the window style, re-read
//! the theme and sample the cursor, when to ask for the next frame, and when
//! to switch mouse passthrough. Times are milliseconds on a monotonic clock.
use vstd::prelude::*;

verus! {

/// Re-measure interval while the taskbar layout is changing.
pub const TASKBAR_POLL_INTERVAL_ACTIVE: u64 = 120;
/// Re-measure interval while the taskbar layout is settled.
pub const TASKBAR_POLL_INTERVAL_IDLE: u64 = 800;
/// How long re-measuring stays fast after the layout changed.
pub const TASKBAR_ACTIVE_POLL_WINDOW: u64 = 2000;
/// Interval of the full-screen check.
pub const FULLSCREEN_POLL_INTERVAL: u64 = 250;
/// Interval at which the window style and z-order are re-applied.
pub const STYLE_ENFORCE_INTERVAL: u64 = 2000;
/// Interval at which the system theme is re-read.
pub const THEME_POLL_INTERVAL: u64 = 3000;
/// Interval at which the cursor position is sampled.
pub const HOVER_POLL_INTERVAL: u64 = 33;
/// Delay before the next frame while something moves.
pub const REPAINT_ACTIVE_INTERVAL: u64 = 16;
/// Delay before the next frame while nothing moves.
pub const REPAINT_IDLE_INTERVAL: u64 = 160;

/// A periodic task is due: it never ran, or at least `interval` has passed
/// since it last ran.
pub open spec fn poll_due(last: Option<u64>, now: u64, interval: u64) -> bool {
    match last {
        None => true,
        Some(t) => t <= now && now - t >= interval,
    }
}

/// A passthrough request must be sent: the last one sent asked for
/// something else, or none was sent.
pub open spec fn sends_passthrough(last_sent: Option<bool>, enabled: bool) -> bool {
    last_sent != Some(enabled)
}

/// What the start of a frame decided.
#[derive(Clone, Copy, Debug)]
pub struct FrameStart {
    /// Whether the taskbar layout changed recently.
    pub high_frequency: bool,
    /// Whether the taskbar is to be measured in this frame.
    pub poll_taskbar: bool,
}

/// What the rest of a frame does once the full-screen state is known.
#[derive(Clone, Copy, Debug)]
pub struct FramePlan {
    /// Re-apply the tool-window style and the topmost z-order.
    pub enforce_style: bool,
    /// Take the shown session from the media controller if it changed.
    pub refresh_media: bool,
    /// Re-read the system theme.
    pub poll_theme: bool,
    /// Draw the controls and the track labels.
    pub draw: bool,
    /// Sample the cursor over the controls.
    pub sample_hover: bool,
    /// Mouse-passthrough command to send now, if any.
    pub passthrough: Option<bool>,
    /// Delay before the next frame when it is fixed now; `None` when it
    /// depends on the movement of the overlay (see [`repaint_interval`]).
    pub repaint_after: Option<u64>,
}

/// The overlay's timers and its hover and passthrough state.
#[derive(Clone, Copy, Debug)]
pub struct OverlaySchedule {
    pub last_taskbar_poll: Option<u64>,
    pub fast_taskbar_poll_until: u64,
    pub last_fullscreen_poll: Option<u64>,
    pub foreground_is_fullscreen: bool,
    pub last_style_enforce: Option<u64>,
    pub last_theme_poll: Option<u64>,
    pub last_hover_poll: Option<u64>,
    pub over_interactive: bool,
    pub mouse_passthrough_enabled: Option<bool>,
}

/// Interval at which the taskbar is measured.
pub open spec fn spec_taskbar_poll_interval(high_frequency: bool) -> u64 {
    if high_frequency {
        TASKBAR_POLL_INTERVAL_ACTIVE
    } else {
        TASKBAR_POLL_INTERVAL_IDLE
    }
}

/// Delay before the next frame.
pub open spec fn spec_repaint_interval(animating: bool, high_frequency: bool) -> u64 {
    if animating || high_frequency {
        REPAINT_ACTIVE_INTERVAL
    } else {
        REPAINT_IDLE_INTERVAL
    }
}

/// Interval at which the taskbar is measured: fast while its layout changes.
pub fn taskbar_poll_interval(high_frequency: bool) -> (r: u64)
    ensures
        r == spec_taskbar_poll_interval(high_frequency),
{
    if high_frequency {
        TASKBAR_POLL_INTERVAL_ACTIVE
    } else {
        TASKBAR_POLL_INTERVAL_IDLE
    }
}

/// Delay before the next frame: short while the overlay moves or the
/// taskbar layout changes, long otherwise.
pub fn repaint_interval(animating: bool, high_frequency: bool) -> (r: u64)
    ensures
        r == spec_repaint_interval(animating, high_frequency),
{
    if animating || high_frequency {
        REPAINT_ACTIVE_INTERVAL
    } else {
        REPAINT_IDLE_INTERVAL
    }
}

/// Whether a periodic task is due; when it is, it is recorded as run now.
pub fn poll(last: &mut Option<u64>, now: u64, interval: u64) -> (due: bool)
    ensures
        due == poll_due(*old(last), now, interval),
        *final(last) == (if due {
            Some(now)
        } else {
            *old(last)
        }),
{
    let due = match *last {
        None => true,
        Some(t) => t <= now && now - t >= interval,
    };
    if due {
        *last = Some(now);
    }
    due
}

impl OverlaySchedule {
    /// The state when the overlay starts: every periodic task is due at once,
    /// fast re-measuring is off, the cursor is off the controls and no
    /// passthrough command has been sent.
    pub fn new(now: u64) -> (r: Self)
        ensures
            r.last_taskbar_poll is None,
            r.fast_taskbar_poll_until == now,
            r.last_fullscreen_poll is None,
            !r.foreground_is_fullscreen,
            r.last_style_enforce is None,
            r.last_theme_poll is None,
            r.last_hover_poll is None,
            !r.over_interactive,
            r.mouse_passthrough_enabled is None,
    {
        OverlaySchedule {
            last_taskbar_poll: None,
            fast_taskbar_poll_until: now,
            last_fullscreen_poll: None,
            foreground_is_fullscreen: false,
            last_style_enforce: None,
            last_theme_poll: None,
            last_hover_poll: None,
            over_interactive: false,
            mouse_passthrough_enabled: None,
        }
    }

    /// Start of a frame: whether the taskbar layout changed recently and
    /// whether the taskbar is to be measured now.
    pub fn begin_frame(&mut self, now: u64) -> (r: FrameStart)
        ensures
            r.high_frequency == (now < old(self).fast_taskbar_poll_until),
            r.poll_taskbar == poll_due(
                old(self).last_taskbar_poll,
                now,
                spec_taskbar_poll_interval(r.high_frequency),
            ),
            final(self).last_taskbar_poll == (if r.poll_taskbar {
                Some(now)
            } else {
                old(self).last_taskbar_poll
            }),
            *final(self) == (OverlaySchedule { last_taskbar_poll: final(self).last_taskbar_poll, ..*old(self) }),
    {
        let high_frequency = now < self.fast_taskbar_poll_until;
        let interval = taskbar_poll_interval(high_frequency);
        let poll_taskbar = poll(&mut self.last_taskbar_poll, now, interval);
        FrameStart { high_frequency, poll_taskbar }
    }

    /// The measured placement moved: measure fast for a while.
    pub fn placement_changed(&mut self, now: u64)
        requires
            now + TASKBAR_ACTIVE_POLL_WINDOW <= u64::MAX,
        ensures
            *final(self) == (OverlaySchedule {
                fast_taskbar_poll_until: (now + TASKBAR_ACTIVE_POLL_WINDOW) as u64,
                ..*old(self)
            }),
    {
        self.fast_taskbar_poll_until = now + TASKBAR_ACTIVE_POLL_WINDOW;
    }

    /// Whether the full-screen check is due; recorded as run when it is.
    pub fn fullscreen_poll_due(&mut self, now: u64) -> (due: bool)
        ensures
            due == poll_due(old(self).last_fullscreen_poll, now, FULLSCREEN_POLL_INTERVAL),
            *final(self) == (OverlaySchedule {
                last_fullscreen_poll: if due {
                    Some(now)
                } else {
                    old(self).last_fullscreen_poll
                },
                ..*old(self)
            }),
    {
        poll(&mut self.last_fullscreen_poll, now, FULLSCREEN_POLL_INTERVAL)
    }

    /// Whether re-applying the window style is due; recorded when it is.
    pub fn style_enforce_due(&mut self, now: u64) -> (due: bool)
        ensures
            due == poll_due(old(self).last_style_enforce, now, STYLE_ENFORCE_INTERVAL),
            *final(self) == (OverlaySchedule {
                last_style_enforce: if due {
                    Some(now)
                } else {
                    old(self).last_style_enforce
                },
                ..*old(self)
            }),
    {
        poll(&mut self.last_style_enforce, now, STYLE_ENFORCE_INTERVAL)
    }

    /// Whether re-reading the theme is due; recorded when it is.
    pub fn theme_poll_due(&mut self, now: u64) -> (due: bool)
        ensures
            due == poll_due(old(self).last_theme_poll, now, THEME_POLL_INTERVAL),
            *final(self) == (OverlaySchedule {
                last_theme_poll: if due {
                    Some(now)
                } else {
                    old(self).last_theme_poll
                },
                ..*old(self)
            }),
    {
        poll(&mut self.last_theme_poll, now, THEME_POLL_INTERVAL)
    }

    /// Whether sampling the cursor is due; recorded when it is.
    pub fn hover_poll_due(&mut self, now: u64) -> (due: bool)
        ensures
            due == poll_due(old(self).last_hover_poll, now, HOVER_POLL_INTERVAL),
            *final(self) == (OverlaySchedule {
                last_hover_poll: if due {
                    Some(now)
                } else {
                    old(self).last_hover_poll
                },
                ..*old(self)
            }),
    {
        poll(&mut self.last_hover_poll, now, HOVER_POLL_INTERVAL)
    }

    /// Ask for mouse passthrough on or off; `true` when the command must be
    /// sent, which is only when the last one sent asked for something else.
    pub fn set_mouse_passthrough(&mut self, enabled: bool) -> (send: bool)
        ensures
            send == sends_passthrough(old(self).mouse_passthrough_enabled, enabled),
            *final(self) == (OverlaySchedule { mouse_passthrough_enabled: Some(enabled), ..*old(self) }),
    {
        let send = match self.mouse_passthrough_enabled {
            Some(current) => current != enabled,
            None => true,
        };
        self.mouse_passthrough_enabled = Some(enabled);
        send
    }

    /// A full-screen app is in front: the cursor no longer counts as over the
    /// controls and all clicks pass through. `true` when the passthrough
    /// command must be sent.
    pub fn enter_fullscreen(&mut self) -> (send: bool)
        ensures
            send == sends_passthrough(old(self).mouse_passthrough_enabled, true),
            *final(self) == (OverlaySchedule {
                over_interactive: false,
                mouse_passthrough_enabled: Some(true),
                ..*old(self)
            }),
    {
        self.over_interactive = false;
        self.set_mouse_passthrough(true)
    }

    /// The rest of a frame, decided from the full-screen state. While a
    /// full-screen app is in front the frame does nothing but make clicks
    /// pass through, and asks for the next frame after the full-screen
    /// interval; otherwise it runs the periodic tasks that are due, refreshes
    /// the session, draws and leaves the repaint delay to the end of the frame.
    pub fn frame_plan(&mut self, now: u64) -> (p: FramePlan)
        ensures
            old(self).foreground_is_fullscreen ==> {
                &&& !p.enforce_style && !p.refresh_media && !p.poll_theme && !p.draw && !p.sample_hover
                &&& p.passthrough == (if sends_passthrough(old(self).mouse_passthrough_enabled, true) {
                    Some(true)
                } else {
                    None
                })
                &&& p.repaint_after == Some(FULLSCREEN_POLL_INTERVAL)
                &&& *final(self) == (OverlaySchedule {
                    over_interactive: false,
                    mouse_passthrough_enabled: Some(true),
                    ..*old(self)
                })
            },
            !old(self).foreground_is_fullscreen ==> {
                &&& p.enforce_style == poll_due(old(self).last_style_enforce, now, STYLE_ENFORCE_INTERVAL)
                &&& p.refresh_media
                &&& p.poll_theme == poll_due(old(self).last_theme_poll, now, THEME_POLL_INTERVAL)
                &&& p.draw
                &&& p.sample_hover == poll_due(old(self).last_hover_poll, now, HOVER_POLL_INTERVAL)
                &&& p.passthrough is None
                &&& p.repaint_after is None
                &&& *final(self) == (OverlaySchedule {
                    last_style_enforce: if p.enforce_style {
                        Some(now)
                    } else {
                        old(self).last_style_enforce
                    },
                    last_theme_poll: if p.poll_theme {
                        Some(now)
                    } else {
                        old(self).last_theme_poll
                    },
                    last_hover_poll: if p.sample_hover {
                        Some(now)
                    } else {
                        old(self).last_hover_poll
                    },
                    ..*old(self)
                })
            },
    {
        if self.foreground_is_fullscreen {
            let send = self.enter_fullscreen();
            return FramePlan {
                enforce_style: false,
                refresh_media: false,
                poll_theme: false,
                draw: false,
                sample_hover: false,
                passthrough: if send {
                    Some(true)
                } else {
                    None
                },
                repaint_after: Some(FULLSCREEN_POLL_INTERVAL),
            };
        }
        let enforce_style = self.style_enforce_due(now);
        let poll_theme = self.theme_poll_due(now);
        let sample_hover = self.hover_poll_due(now);
        FramePlan {
            enforce_style,
            refresh_media: true,
            poll_theme,
            draw: true,
            sample_hover,
            passthrough: None,
            repaint_after: None,
        }
    }

    /// The cursor was sampled: over the controls or not. Clicks pass through
    /// exactly when it is not over them; the result is the passthrough
    /// command to send, if any (none when the last one sent already asked
    /// for that).
    pub fn hover_sampled(&mut self, over_interactive: bool) -> (cmd: Option<bool>)
        ensures
            *final(self) == (OverlaySchedule {
                over_interactive,
                mouse_passthrough_enabled: Some(!over_interactive),
                ..*old(self)
            }),
            cmd == (if sends_passthrough(old(self).mouse_passthrough_enabled, !over_interactive) {
                Some(!over_interactive)
            } else {
                None
            }),
    {
        self.over_interactive = over_interactive;
        if self.set_mouse_passthrough(!over_interactive) {
            Some(!over_interactive)
        } else {
            None
        }
    }
}

/// A periodic task that just ran is not due again until its interval has
/// passed.
pub proof fn lemma_poll_spacing(ran_at: u64, now: u64, interval: u64)
    requires
        ran_at <= now,
        now < ran_at + interval,
    ensures
        !poll_due(Some(ran_at), now, interval),
{
}

/// A periodic task that ran is due again once its interval has passed.
pub proof fn lemma_poll_resumes(ran_at: u64, now: u64, interval: u64)
    requires
        ran_at + interval <= now,
    ensures
        poll_due(Some(ran_at), now, interval),
{
}

/// Asking twice in a row for the same passthrough sends the command at most
/// once: after the first request, the second sends nothing.
pub proof fn lemma_passthrough_sent_once(state: OverlaySchedule, enabled: bool)
    ensures
        !sends_passthrough(
            (OverlaySchedule { mouse_passthrough_enabled: Some(enabled), ..state }).mouse_passthrough_enabled,
            enabled,
        ),
{
}

/// A periodic task that never ran is due at once.
pub proof fn lemma_poll_first_due(now: u64, interval: u64)
    ensures
        poll_due(None, now, interval),
{
}

} // verus!
