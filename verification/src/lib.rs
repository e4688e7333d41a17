//! Ranking of media sessions and taskbar placement logic for a media overlay
//! that sits on the Windows taskbar.
pub mod text;
pub mod media;
pub mod placement;
pub mod overlay;
pub mod schedule;
pub mod updates;
