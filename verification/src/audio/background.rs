use vstd::prelude::*;
use rand::seq::SliceRandom;

use crate::ui::screens::{decimal, decimal_string, ScreenLabel};

verus! {

/// The number of tracks of the soundtrack.
pub const NUM_TRACKS: u32 = 12;

/// The file of the `n`th track of the soundtrack.
pub open spec fn track_file(n: nat) -> Seq<char> {
    seq!['m', 'u', 's', 'i', 'c', '/'] + decimal(n) + seq!['.', 'W', 'A', 'V']
}

/// The music files that play in turn during the game.
pub struct SoundTrack(pub Vec<String>);

impl SoundTrack {
    /// The files of the tracks, in order.
    pub open spec fn files(&self) -> Seq<Seq<char>> {
        self.0@.map_values(|file: String| file@)
    }
}

/// The soundtrack of the game: tracks 1 to `NUM_TRACKS`, in order.
pub fn add_soundtrack() -> (soundtrack: SoundTrack)
    ensures
        soundtrack.files().len() == NUM_TRACKS,
        forall|i: int| 0 <= i < NUM_TRACKS ==> #[trigger] soundtrack.files()[i] == track_file((i + 1) as nat),
{
    let mut music_files: Vec<String> = Vec::new();
    let mut i: u32 = 1;
    while i <= NUM_TRACKS
        invariant
            1 <= i <= NUM_TRACKS + 1,
            music_files@.len() == i - 1,
            forall|k: int| 0 <= k < i - 1 ==> #[trigger] music_files@[k]@ == track_file((k + 1) as nat),
        decreases NUM_TRACKS + 1 - i,
    {
        let mut file = "music/".to_owned();
        let number = decimal_string(i);
        file.append(number.as_str());
        file.append(".WAV");
        proof {
            reveal_strlit("music/");
            reveal_strlit(".WAV");
            assert(file@ =~= track_file(i as nat));
        }
        music_files.push(file);
        i = i + 1;
    }
    let soundtrack = SoundTrack(music_files);
    proof {
        assert forall|k: int| 0 <= k < NUM_TRACKS implies #[trigger] soundtrack.files()[k] == track_file(
            (k + 1) as nat,
        ) by {
            assert(soundtrack.files()[k] == music_files@[k]@);
        }
    }
    soundtrack
}

/// Picks one of the tracks at random with `rand`'s thread generator
/// (`SliceRandom::choose`) and copies it. The source returns nothing for no
/// tracks and otherwise one of them; which one is left to chance and is not
/// stated.
#[verifier::external_body]
fn choose_track(tracks: &Vec<String>) -> (chosen: Option<String>)
    ensures
        chosen is None <==> tracks@.len() == 0,
        chosen matches Some(track) ==> exists|i: int| 0 <= i < tracks@.len() && track@ == tracks@[i]@,
{
    tracks.choose(&mut rand::thread_rng()).cloned()
}

/// Once the game is on and no music plays, a track of the soundtrack is
/// picked at random to play next. Nothing is picked on other screens or
/// while music plays.
pub fn randomly_choose_song(screen_label: ScreenLabel, soundtrack: &SoundTrack, music_playing: bool) -> (chosen: Option<String>)
    requires
        screen_label == ScreenLabel::InGame && !music_playing ==> soundtrack.files().len() > 0,
    ensures
        chosen is None <==> (screen_label != ScreenLabel::InGame || music_playing),
        chosen matches Some(track) ==> exists|i: int|
            0 <= i < soundtrack.files().len() && track@ == soundtrack.files()[i],
{
    if music_playing {
        return None;
    }
    if screen_label != ScreenLabel::InGame {
        return None;
    }
    let chosen = choose_track(&soundtrack.0);
    proof {
        if chosen is Some {
            let track = chosen->0;
            let i = choose|i: int| 0 <= i < soundtrack.0@.len() && track@ == soundtrack.0@[i]@;
            assert(soundtrack.files()[i] == soundtrack.0@[i]@);
        }
    }
    chosen
}

} // verus!
