use task_masker::audio::background::{add_soundtrack, randomly_choose_song, SoundTrack, NUM_TRACKS};
use task_masker::ui::screens::ScreenLabel;

#[test]
fn soundtrack_lists_numbered_tracks() {
    let soundtrack = add_soundtrack();
    assert_eq!(NUM_TRACKS as usize, soundtrack.0.len());
    assert_eq!("music/1.WAV", soundtrack.0[0]);
    assert_eq!("music/9.WAV", soundtrack.0[8]);
    assert_eq!("music/12.WAV", soundtrack.0[11]);
}

#[test]
fn song_chosen_from_soundtrack_in_game() {
    let soundtrack = add_soundtrack();
    for _ in 0..20 {
        let chosen = randomly_choose_song(ScreenLabel::InGame, &soundtrack, false)
            .expect("a song is picked once the game is on");
        assert!(soundtrack.0.contains(&chosen));
    }
}

#[test]
fn no_song_while_music_plays_or_off_game() {
    let soundtrack = add_soundtrack();
    assert_eq!(None, randomly_choose_song(ScreenLabel::InGame, &soundtrack, true));
    assert_eq!(None, randomly_choose_song(ScreenLabel::Start, &soundtrack, false));
    assert_eq!(None, randomly_choose_song(ScreenLabel::End, &soundtrack, false));
}

#[test]
fn single_track_is_always_chosen() {
    let soundtrack = SoundTrack(vec![String::from("music/only.WAV")]);
    assert_eq!(
        Some(String::from("music/only.WAV")),
        randomly_choose_song(ScreenLabel::InGame, &soundtrack, false)
    );
}
