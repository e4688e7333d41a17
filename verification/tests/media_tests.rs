use taskbar_media_viewer::media::{
    app_priority, media_changed, media_info_from_player, play_pause_action, playback_priority,
    prioritized_media, same_media, total_priority_score, MediaInfo, PlayPause, TrackInfo,
    DEFAULT_APP_PRIORITY,
};
use taskbar_media_viewer::text::{contains_chars, join_with, lower_chars};

fn default_list() -> Vec<(String, i32)> {
    vec![
        ("spotify".to_string(), 40),
        ("vlc".to_string(), 35),
        ("music".to_string(), 30),
        ("chrome".to_string(), 25),
        ("msedge".to_string(), 25),
    ]
}

fn session(app: &str, title: &str, state: &str, list: &Vec<(String, i32)>) -> MediaInfo {
    MediaInfo::new(app.to_string(), title.to_string(), String::new(), state.to_string(), list)
}

#[test]
fn playback_states_rank_playing_paused_stopped() {
    assert_eq!(playback_priority("Playing"), 3);
    assert_eq!(playback_priority("Paused"), 2);
    assert_eq!(playback_priority("Stopped"), 1);
    assert_eq!(playback_priority("Buffering"), 0);
    assert_eq!(playback_priority(""), 0);
}

#[test]
fn playback_state_ignores_ascii_case() {
    assert_eq!(playback_priority("PLAYING"), 3);
    assert_eq!(playback_priority("pAuSeD"), 2);
    assert_eq!(playback_priority("stopped"), 1);
    assert_eq!(playback_priority("playing "), 0);
}

#[test]
fn app_priority_uses_first_listed_match() {
    let list = default_list();
    assert_eq!(app_priority("Spotify.exe", &list), 40);
    assert_eq!(app_priority("VLC media player", &list), 35);
    assert_eq!(app_priority("Microsoft.ZuneMusic", &list), 30);
    assert_eq!(app_priority("msedge.exe", &list), 25);
    let overlapping = vec![("chrome".to_string(), 7), ("chrom".to_string(), 9)];
    assert_eq!(app_priority("GoogleChrome", &overlapping), 7);
}

#[test]
fn app_priority_defaults_for_unlisted_apps() {
    let list = default_list();
    assert_eq!(app_priority("firefox.exe", &list), DEFAULT_APP_PRIORITY);
    assert_eq!(app_priority("anything", &Vec::new()), 5);
}

#[test]
fn app_priority_matches_identifiers_regardless_of_case() {
    let list = vec![("Spotify".to_string(), 40)];
    assert_eq!(app_priority("SPOTIFY.EXE", &list), 40);
    assert_eq!(app_priority("spotify", &list), 40);
}

#[test]
fn total_score_weights_state_then_app_then_track() {
    let list = default_list();
    assert_eq!(total_priority_score("Spotify.exe", "Playing", true, &list), 3000 + 400 + 1);
    assert_eq!(total_priority_score("firefox", "Paused", false, &list), 2000 + 50);
    assert_eq!(total_priority_score("vlc", "Unknown", true, &list), 351);
}

#[test]
fn playing_default_app_beats_paused_preferred_app() {
    let list = default_list();
    let playing = total_priority_score("firefox", "Playing", false, &list);
    let paused = total_priority_score("spotify", "Paused", true, &list);
    assert!(playing > paused);
}

#[test]
fn media_info_new_scores_with_title_as_track_flag() {
    let list = default_list();
    let with_title = session("spotify", "Song", "Playing", &list);
    assert_eq!(with_title.score, 3401);
    assert_eq!(with_title.title, "Song");
    let without_title = session("spotify", "", "Playing", &list);
    assert_eq!(without_title.score, 3400);
}

#[test]
fn empty_media_info_is_placeholder() {
    let m = MediaInfo::empty();
    assert_eq!(m.app_id, "");
    assert_eq!(m.title, "No Active Media Session");
    assert_eq!(m.artist, "");
    assert_eq!(m.state, "");
    assert_eq!(m.score, 0);
}

#[test]
fn player_with_track_joins_artists() {
    let list = default_list();
    let track = TrackInfo {
        title: "Song".to_string(),
        artist: vec!["A".to_string(), "B".to_string(), "C".to_string()],
    };
    let m = media_info_from_player("vlc".to_string(), Some(track), "Paused".to_string(), &list);
    assert_eq!(m.title, "Song");
    assert_eq!(m.artist, "A, B, C");
    assert_eq!(m.state, "Paused");
    assert_eq!(m.score, 2000 + 350 + 1);
}

#[test]
fn player_without_track_gets_fixed_texts() {
    let list = default_list();
    let m = media_info_from_player("vlc".to_string(), None, "Stopped".to_string(), &list);
    assert_eq!(m.title, "No track currently playing.");
    assert_eq!(m.artist, "No artist available.");
    assert_eq!(m.score, 1000 + 350);
}

#[test]
fn prioritized_media_picks_highest_score() {
    let list = default_list();
    let sessions = vec![
        session("firefox", "a", "Paused", &list),
        session("spotify", "b", "Playing", &list),
        session("vlc", "c", "Playing", &list),
    ];
    let best = prioritized_media(sessions);
    assert_eq!(best.app_id, "spotify");
}

#[test]
fn prioritized_media_prefers_last_of_equal_scores() {
    let list = default_list();
    let sessions = vec![
        session("chrome", "first", "Playing", &list),
        session("msedge", "second", "Playing", &list),
        session("firefox", "third", "Paused", &list),
    ];
    let best = prioritized_media(sessions);
    assert_eq!(best.title, "second");
}

#[test]
fn prioritized_media_without_sessions_is_placeholder() {
    let best = prioritized_media(Vec::new());
    assert_eq!(best.title, "No Active Media Session");
    assert_eq!(best.score, 0);
}

#[test]
fn text_helpers_behave_like_std() {
    assert_eq!(lower_chars("AbC-é"), vec!['a', 'b', 'c', '-', 'é']);
    let hay: Vec<char> = "spotify.exe".chars().collect();
    assert!(contains_chars(&hay, &"fy.e".chars().collect()));
    assert!(contains_chars(&hay, &Vec::new()));
    assert!(!contains_chars(&hay, &"exe.".chars().collect()));
    assert_eq!(join_with(&vec!["x".to_string()], ", "), "x");
    assert_eq!(join_with(&Vec::new(), ", "), "");
}

#[test]
fn player_with_untitled_track_gets_no_bonus() {
    let list = default_list();
    let track = TrackInfo { title: String::new(), artist: vec!["A".to_string()] };
    let m = media_info_from_player("vlc".to_string(), Some(track), "Playing".to_string(), &list);
    assert_eq!(m.title, "");
    assert_eq!(m.score, 3000 + 350);
}

#[test]
fn play_pause_pauses_only_playing_sessions() {
    assert_eq!(play_pause_action(&"Playing".to_string()), PlayPause::Pause);
    assert_eq!(play_pause_action(&"Paused".to_string()), PlayPause::Play);
    assert_eq!(play_pause_action(&"playing".to_string()), PlayPause::Play);
    assert_eq!(play_pause_action(&String::new()), PlayPause::Play);
}

#[test]
fn media_change_detection_ignores_score() {
    let list = default_list();
    let a = session("spotify", "Song", "Playing", &list);
    let mut b = a.clone();
    b.score = 0;
    assert!(same_media(&a, &b));
    assert!(!media_changed(&Some(a.clone()), &b));
    let c = session("spotify", "Song", "Paused", &list);
    assert!(media_changed(&Some(a.clone()), &c));
    assert!(media_changed(&None, &a));
}
