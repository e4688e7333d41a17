//! Media sessions and the rules that decide which one the overlay shows.
//!
//! Every session gets a score: the playback state is the primary key, the
//! preference of the user for the app the secondary one, and having track
//! metadata a small bonus. The session with the highest score is shown.
use vstd::prelude::*;
use crate::text::{
    ascii_lower, chars_equal, contains_chars, contains_seq, join_seq, join_with,
    lemma_ascii_lower_idempotent, lower_chars,
};

verus! {

/// One media session as the overlay sees it.
#[derive(Clone)]
pub struct MediaInfo {
    pub app_id: String,
    pub title: String,
    pub artist: String,
    pub state: String,
    pub score: i32,
}

/// The track a player reports: its title and its artists.
pub struct TrackInfo {
    pub title: String,
    pub artist: Vec<String>,
}

/// Score of an app that matches no entry of the priority list.
pub const DEFAULT_APP_PRIORITY: i32 = 5;

/// Rank of a playback state, compared without regard to ASCII case:
/// playing 3, paused 2, stopped 1, anything else 0.
pub open spec fn playback_rank(state: Seq<char>) -> int {
    let s = ascii_lower(state);
    if s == seq!['p', 'l', 'a', 'y', 'i', 'n', 'g'] {
        3
    } else if s == seq!['p', 'a', 'u', 's', 'e', 'd'] {
        2
    } else if s == seq!['s', 't', 'o', 'p', 'p', 'e', 'd'] {
        1
    } else {
        0
    }
}

/// Whether an entry of the priority list names the player: the identifier
/// occurs in the player name, both compared without regard to ASCII case.
pub open spec fn entry_matches(player_name: Seq<char>, identifier: Seq<char>) -> bool {
    contains_seq(ascii_lower(player_name), ascii_lower(identifier))
}

/// The score of the first entry of `list` that names the player, or the
/// default score when none does.
pub open spec fn app_rank(player_name: Seq<char>, list: Seq<(String, i32)>) -> int
    decreases list.len(),
{
    if list.len() == 0 {
        DEFAULT_APP_PRIORITY as int
    } else if entry_matches(player_name, list[0].0@) {
        list[0].1 as int
    } else {
        app_rank(player_name, list.drop_first())
    }
}

/// The score of a session: playback state first, app preference second,
/// track metadata last.
pub open spec fn priority_score(
    app_id: Seq<char>,
    state: Seq<char>,
    has_track: bool,
    list: Seq<(String, i32)>,
) -> int {
    playback_rank(state) * 1000 + app_rank(app_id, list) * 10 + if has_track {
        1int
    } else {
        0int
    }
}

/// The arithmetic of the score stays within `i32`.
pub open spec fn score_fits(
    app_id: Seq<char>,
    state: Seq<char>,
    has_track: bool,
    list: Seq<(String, i32)>,
) -> bool {
    &&& i32::MIN <= app_rank(app_id, list) * 10
    &&& app_rank(app_id, list) * 10 <= i32::MAX
    &&& i32::MIN <= priority_score(app_id, state, has_track, list) <= i32::MAX
}

/// The player reports a track with a title.
pub open spec fn has_track_metadata(track: Option<TrackInfo>) -> bool {
    match track {
        Some(t) => t.title@.len() > 0,
        None => false,
    }
}

/// The fields of the placeholder shown when no session exists.
pub open spec fn is_placeholder(m: MediaInfo) -> bool {
    &&& m.app_id@ == Seq::<char>::empty()
    &&& m.title@ == "No Active Media Session"@
    &&& m.artist@ == Seq::<char>::empty()
    &&& m.state@ == Seq::<char>::empty()
    &&& m.score == 0
}

impl MediaInfo {
    /// A session with its score computed from the priority list.
    pub fn new(
        app_id: String,
        title: String,
        artist: String,
        state: String,
        priority_list: &Vec<(String, i32)>,
    ) -> (r: Self)
        requires
            score_fits(app_id@, state@, title@.len() > 0, priority_list@),
        ensures
            r.app_id == app_id,
            r.title == title,
            r.artist == artist,
            r.state == state,
            r.score == priority_score(app_id@, state@, title@.len() > 0, priority_list@),
    {
        let has_track = !title.as_str().is_empty();
        let score = total_priority_score(app_id.as_str(), state.as_str(), has_track, priority_list);
        MediaInfo { app_id, title, artist, state, score }
    }

    /// The placeholder shown when no media session exists.
    pub fn empty() -> (r: Self)
        ensures
            is_placeholder(r),
    {
        MediaInfo {
            app_id: String::new(),
            title: String::from_str("No Active Media Session"),
            artist: String::new(),
            state: String::new(),
            score: 0,
        }
    }
}

/// Rank of a playback state; see [`playback_rank`].
pub fn playback_priority(playback_state: &str) -> (r: i32)
    ensures
        r == playback_rank(playback_state@),
{
    let s = lower_chars(playback_state);
    if chars_equal(&s, &vec!['p', 'l', 'a', 'y', 'i', 'n', 'g']) {
        3
    } else if chars_equal(&s, &vec!['p', 'a', 'u', 's', 'e', 'd']) {
        2
    } else if chars_equal(&s, &vec!['s', 't', 'o', 'p', 'p', 'e', 'd']) {
        1
    } else {
        0
    }
}

/// Preference score of a player: that of the first entry of the priority
/// list that names it, else the default.
pub fn app_priority(player_name: &str, priority_list: &Vec<(String, i32)>) -> (r: i32)
    ensures
        r == app_rank(player_name@, priority_list@),
{
    let normalized = lower_chars(player_name);
    let n = priority_list.len();
    let mut i: usize = 0;
    assert(priority_list@.subrange(0, n as int) =~= priority_list@);
    while i < n
        invariant
            n == priority_list@.len(),
            i <= n,
            normalized@ == ascii_lower(player_name@),
            app_rank(player_name@, priority_list@) == app_rank(
                player_name@,
                priority_list@.subrange(i as int, n as int),
            ),
        decreases n - i,
    {
        let ghost rest = priority_list@.subrange(i as int, n as int);
        assert(rest[0] == priority_list@[i as int]);
        assert(rest.drop_first() =~= priority_list@.subrange(i + 1, n as int));
        let identifier = lower_chars(priority_list[i].0.as_str());
        if contains_chars(&normalized, &identifier) {
            return priority_list[i].1;
        }
        i = i + 1;
    }
    DEFAULT_APP_PRIORITY
}

/// Score of a session; see [`priority_score`].
pub fn total_priority_score(
    app_id: &str,
    state: &str,
    has_track: bool,
    priority_list: &Vec<(String, i32)>,
) -> (r: i32)
    requires
        score_fits(app_id@, state@, has_track, priority_list@),
    ensures
        r == priority_score(app_id@, state@, has_track, priority_list@),
{
    let playback_score = playback_priority(state);
    let app_score = app_priority(app_id, priority_list);
    let track_bonus: i32 = if has_track {
        1
    } else {
        0
    };
    (playback_score * 1000) + (app_score * 10) + track_bonus
}

/// The session a player reports: the track title and its artists joined with
/// `", "`, or fixed texts when the player reports no track. The metadata
/// bonus goes only to a session with a track that has a title.
pub fn media_info_from_player(
    app_id: String,
    track: Option<TrackInfo>,
    playback_state: String,
    priority_list: &Vec<(String, i32)>,
) -> (r: MediaInfo)
    requires
        score_fits(
            app_id@,
            playback_state@,
            has_track_metadata(track),
            priority_list@,
        ),
    ensures
        r.app_id == app_id,
        r.state == playback_state,
        match track {
            Some(t) => {
                &&& r.title == t.title
                &&& r.artist@ == join_seq(t.artist@.map_values(|a: String| a@), ", "@)
            },
            None => {
                &&& r.title@ == "No track currently playing."@
                &&& r.artist@ == "No artist available."@
            },
        },
        r.score == priority_score(app_id@, playback_state@, has_track_metadata(track), priority_list@),
{
    let has_track = match &track {
        Some(t) => !t.title.as_str().is_empty(),
        None => false,
    };
    let score = total_priority_score(app_id.as_str(), playback_state.as_str(), has_track, priority_list);
    let (title, artist) = match track {
        Some(t) => {
            let artist = join_with(&t.artist, ", ");
            (t.title, artist)
        },
        None => {
            let title = String::from_str("No track currently playing.");
            let artist = String::from_str("No artist available.");
            (title, artist)
        },
    };
    MediaInfo { app_id, title, artist, state: playback_state, score }
}

/// The session with the highest score; among equal scores the last one, as
/// `Iterator::max_by_key` picks. With no session, the placeholder.
pub fn prioritized_media(sessions: Vec<MediaInfo>) -> (r: MediaInfo)
    ensures
        sessions@.len() == 0 ==> is_placeholder(r),
        sessions@.len() > 0 ==> exists|i: int|
            0 <= i < sessions@.len() && r == sessions@[i] && (forall|j: int|
                0 <= j < sessions@.len() ==> #[trigger] sessions@[j].score <= r.score) && (
            forall|j: int| i < j < sessions@.len() ==> #[trigger] sessions@[j].score < r.score),
{
    let n = sessions.len();
    if n == 0 {
        return MediaInfo::empty();
    }
    let mut best: usize = 0;
    let mut k: usize = 1;
    while k < n
        invariant
            n == sessions@.len(),
            1 <= k <= n,
            best < k,
            forall|j: int| 0 <= j < k ==> #[trigger] sessions@[j].score <= sessions@[best as int].score,
            forall|j: int| best < j < k ==> #[trigger] sessions@[j].score < sessions@[best as int].score,
        decreases n - k,
    {
        if sessions[k].score >= sessions[best].score {
            best = k;
        }
        k = k + 1;
    }
    let ghost all = sessions@;
    let mut sessions = sessions;
    let r = sessions.remove(best);
    assert(r == all[best as int]);
    r
}

/// Every score in the list lies in `[lo, hi]`.
pub open spec fn list_scores_within(list: Seq<(String, i32)>, lo: int, hi: int) -> bool {
    forall|i: int| 0 <= i < list.len() ==> lo <= #[trigger] list[i].1 <= hi
}

/// The app rank is the default or a score taken from the list.
proof fn lemma_app_rank_within(player_name: Seq<char>, list: Seq<(String, i32)>, lo: int, hi: int)
    requires
        list_scores_within(list, lo, hi),
        lo <= DEFAULT_APP_PRIORITY <= hi,
    ensures
        lo <= app_rank(player_name, list) <= hi,
    decreases list.len(),
{
    if list.len() > 0 {
        assert(lo <= list[0].1 <= hi);
        assert forall|i: int| 0 <= i < list.drop_first().len() implies lo <= #[trigger] list.drop_first()[i].1 <= hi by {
            assert(list.drop_first()[i] == list[i + 1]);
        }
        lemma_app_rank_within(player_name, list.drop_first(), lo, hi);
    }
}

/// The playback state is the primary key: while every preference score lies
/// in `0..=99`, a session in a higher-ranked playback state scores higher
/// than one in a lower-ranked state, whatever their apps and tracks.
pub proof fn lemma_playback_state_dominates(
    a_id: Seq<char>,
    a_state: Seq<char>,
    a_track: bool,
    b_id: Seq<char>,
    b_state: Seq<char>,
    b_track: bool,
    list: Seq<(String, i32)>,
)
    requires
        list_scores_within(list, 0, 99),
        playback_rank(a_state) > playback_rank(b_state),
    ensures
        priority_score(a_id, a_state, a_track, list) > priority_score(b_id, b_state, b_track, list),
{
    lemma_app_rank_within(a_id, list, 0, 99);
    lemma_app_rank_within(b_id, list, 0, 99);
}

/// Between sessions in the same playback state, the more preferred app
/// scores higher, whatever their tracks.
pub proof fn lemma_app_preference_breaks_ties(
    a_id: Seq<char>,
    a_state: Seq<char>,
    a_track: bool,
    b_id: Seq<char>,
    b_state: Seq<char>,
    b_track: bool,
    list: Seq<(String, i32)>,
)
    requires
        playback_rank(a_state) == playback_rank(b_state),
        app_rank(a_id, list) > app_rank(b_id, list),
    ensures
        priority_score(a_id, a_state, a_track, list) > priority_score(b_id, b_state, b_track, list),
{
}

/// Between sessions in the same playback state with equally preferred apps,
/// the one with track metadata scores exactly one more.
pub proof fn lemma_track_bonus(
    a_id: Seq<char>,
    b_id: Seq<char>,
    state_a: Seq<char>,
    state_b: Seq<char>,
    list: Seq<(String, i32)>,
)
    requires
        playback_rank(state_a) == playback_rank(state_b),
        app_rank(a_id, list) == app_rank(b_id, list),
    ensures
        priority_score(a_id, state_a, true, list) == priority_score(b_id, state_b, false, list) + 1,
{
}

/// Ranking ignores ASCII case: the playback state and the player name rank
/// the same as their lower-cased forms.
pub proof fn lemma_ranking_ignores_case(state: Seq<char>, player_name: Seq<char>, list: Seq<(String, i32)>)
    ensures
        playback_rank(ascii_lower(state)) == playback_rank(state),
        app_rank(ascii_lower(player_name), list) == app_rank(player_name, list),
    decreases list.len(),
{
    lemma_ascii_lower_idempotent(state);
    lemma_ascii_lower_idempotent(player_name);
    if list.len() > 0 {
        lemma_ranking_ignores_case(state, player_name, list.drop_first());
    }
}

/// The first entry of the list that names the player decides its score;
/// later entries do not matter.
pub proof fn lemma_first_match_wins(player_name: Seq<char>, list: Seq<(String, i32)>, k: int)
    requires
        0 <= k < list.len(),
        entry_matches(player_name, list[k].0@),
        forall|j: int| 0 <= j < k ==> !entry_matches(player_name, #[trigger] list[j].0@),
    ensures
        app_rank(player_name, list) == list[k].1,
    decreases k,
{
    if k > 0 {
        assert(!entry_matches(player_name, list[0].0@));
        assert forall|j: int| 0 <= j < k - 1 implies !entry_matches(player_name, #[trigger] list.drop_first()[j].0@) by {
            assert(list.drop_first()[j] == list[j + 1]);
        }
        assert(list.drop_first()[k - 1] == list[k]);
        lemma_first_match_wins(player_name, list.drop_first(), k - 1);
    }
}

/// A player that no entry names gets the default score.
pub proof fn lemma_unlisted_app_gets_default(player_name: Seq<char>, list: Seq<(String, i32)>)
    requires
        forall|j: int| 0 <= j < list.len() ==> !entry_matches(player_name, #[trigger] list[j].0@),
    ensures
        app_rank(player_name, list) == DEFAULT_APP_PRIORITY,
    decreases list.len(),
{
    if list.len() > 0 {
        assert(!entry_matches(player_name, list[0].0@));
        assert forall|j: int| 0 <= j < list.drop_first().len() implies !entry_matches(player_name, #[trigger] list.drop_first()[j].0@) by {
            assert(list.drop_first()[j] == list[j + 1]);
        }
        lemma_unlisted_app_gets_default(player_name, list.drop_first());
    }
}

/// What the play/pause control does for a session.
#[derive(Clone, Copy, Debug, PartialEq, Eq, Structural)]
pub enum PlayPause {
    Play,
    Pause,
}

/// The play/pause control pauses a session whose state reads exactly
/// `Playing` and plays any other.
pub open spec fn spec_play_pause_action(state: Seq<char>) -> PlayPause {
    if state == "Playing"@ {
        PlayPause::Pause
    } else {
        PlayPause::Play
    }
}

/// What the play/pause control does for the shown session; see
/// [`spec_play_pause_action`].
pub fn play_pause_action(state: &String) -> (r: PlayPause)
    ensures
        r == spec_play_pause_action(state@),
{
    let playing = String::from_str("Playing");
    if *state == playing {
        PlayPause::Pause
    } else {
        PlayPause::Play
    }
}

/// Two sessions show the same thing: same app, title, artist and state.
pub open spec fn spec_same_media(a: MediaInfo, b: MediaInfo) -> bool {
    &&& a.app_id@ == b.app_id@
    &&& a.title@ == b.title@
    &&& a.artist@ == b.artist@
    &&& a.state@ == b.state@
}

/// Whether two sessions show the same thing.
pub fn same_media(a: &MediaInfo, b: &MediaInfo) -> (r: bool)
    ensures
        r == spec_same_media(*a, *b),
{
    a.app_id == b.app_id && a.title == b.title && a.artist == b.artist && a.state == b.state
}

/// Whether the overlay must refresh: nothing is shown yet, or the newly
/// prioritized session shows something else than the shown one.
pub fn media_changed(shown: &Option<MediaInfo>, best: &MediaInfo) -> (r: bool)
    ensures
        r == match *shown {
            Some(current) => !spec_same_media(current, *best),
            None => true,
        },
{
    match shown {
        Some(current) => !same_media(current, best),
        None => true,
    }
}

/// The play/pause control pauses exactly the sessions whose state reads
/// `Playing`, letter for letter; every other state (stopped, paused, a
/// different case) is played.
pub proof fn lemma_play_pause_pauses_only_playing(state: Seq<char>)
    ensures
        spec_play_pause_action(state) == PlayPause::Pause <==> state == seq!['P', 'l', 'a', 'y', 'i', 'n', 'g'],
        spec_play_pause_action(state) == PlayPause::Play <==> state != seq!['P', 'l', 'a', 'y', 'i', 'n', 'g'],
{
    reveal_strlit("Playing");
    assert("Playing"@ =~= seq!['P', 'l', 'a', 'y', 'i', 'n', 'g']);
}

/// Two sessions are the same exactly when their app, title, artist and state
/// read the same; the score plays no part. So the overlay refreshes whenever
/// any of those four differs, and only then.
pub proof fn lemma_same_media_by_fields(a: MediaInfo, b: MediaInfo)
    ensures
        spec_same_media(a, b) <==> (a.app_id@ == b.app_id@ && a.title@ == b.title@ && a.artist@ == b.artist@
            && a.state@ == b.state@),
        spec_same_media(a, b) ==> a.title@ == b.title@ && a.artist@ == b.artist@,
        spec_same_media(a, a),
        spec_same_media(a, b) == spec_same_media(b, a),
{
}

/// Only a track with a non-empty title earns the metadata bonus; a player
/// with no track never does.
pub proof fn lemma_track_metadata_by_title(track: Option<TrackInfo>)
    ensures
        track is None ==> !has_track_metadata(track),
        track matches Some(t) ==> (has_track_metadata(track) <==> t.title@.len() > 0),
{
}

/// The score weights, spelled out: a thousand per playback rank, ten per
/// point of app preference, one for track metadata.
pub proof fn lemma_priority_score_weights(
    app_id: Seq<char>,
    state: Seq<char>,
    has_track: bool,
    list: Seq<(String, i32)>,
)
    ensures
        priority_score(app_id, state, has_track, list) == 1000 * playback_rank(state) + 10 * app_rank(app_id, list)
            + (if has_track { 1int } else { 0int }),
{
}

/// The playback rank spelled out: 3 for a state that reads `playing` in any
/// ASCII case, 2 for `paused`, 1 for `stopped`, 0 for anything else.
pub proof fn lemma_playback_rank_by_state(state: Seq<char>)
    ensures
        playback_rank(state) == 3 <==> ascii_lower(state) == seq!['p', 'l', 'a', 'y', 'i', 'n', 'g'],
        playback_rank(state) == 2 <==> ascii_lower(state) == seq!['p', 'a', 'u', 's', 'e', 'd'],
        playback_rank(state) == 1 <==> ascii_lower(state) == seq!['s', 't', 'o', 'p', 'p', 'e', 'd'],
        0 <= playback_rank(state) <= 3,
{
    let s = ascii_lower(state);
    if s == seq!['p', 'l', 'a', 'y', 'i', 'n', 'g'] {
        assert(s[1] != seq!['p', 'a', 'u', 's', 'e', 'd'][1]);
        assert(s.len() == 7);
    }
    if s == seq!['s', 't', 'o', 'p', 'p', 'e', 'd'] {
        assert(s[0] != seq!['p', 'a', 'u', 's', 'e', 'd'][0]);
        assert(s[0] != seq!['p', 'l', 'a', 'y', 'i', 'n', 'g'][0]);
    }
    if s == seq!['p', 'a', 'u', 's', 'e', 'd'] {
        assert(s.len() == 6);
    }
}

/// An entry names a player when its identifier, lower-cased, occurs as a
/// block of the lower-cased player name.
pub proof fn lemma_entry_matches_by_block(player_name: Seq<char>, identifier: Seq<char>, at: int)
    requires
        0 <= at,
        at + identifier.len() <= player_name.len(),
        ascii_lower(player_name).subrange(at, at + identifier.len()) == ascii_lower(identifier),
    ensures
        entry_matches(player_name, identifier),
{
    assert(ascii_lower(identifier).len() == identifier.len());
}

} // verus!
