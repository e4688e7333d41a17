# Taskbar Media Viewer

A small overlay that sits on the Windows taskbar, shows the media session that
matters most right now and offers previous / play-pause / next controls.

The decisions of the program are a verified library (Verus) under `src/`:

- `media`: the score of a media session (playback state first, app preference
  from the priority list second, track metadata last), the session a player
  reports, and the choice of the session to show;
- `placement`: the taskbar's bounds and the widest stretch of it that no
  taskbar element blocks;
- `overlay`: the overlay's tool-window style and the full-screen test;
- `schedule`: the per-frame timing, hover and mouse-passthrough decisions;
- `updates`: when to look for a newer release;
- `text`: the character-level helpers these rely on.

`app/` is the Windows program around it: Win32, UI Automation, the registry,
the media session API, the egui window and the floating-point layout.
