//! Sound effect decisions: which effect plays, given the mute state and the
//! effects that could be loaded. Playing the sound itself is left to the caller.

use vstd::prelude::*;

verus! {

/// A sound effect of the game.
#[derive(Debug, Clone, Copy, PartialEq, Eq)]
pub enum Sound {
    /// A pair was matched.
    Match,
    /// Two tiles did not match.
    Error,
    /// The board was cleared.
    Victory,
    /// The board was shuffled.
    Shuffle,
}

/// The audio state: which effects are available and whether sound is muted.
/// With audio unavailable or effects missing, the `play_*` methods play nothing.
pub struct AudioManager {
    match_sound: bool,
    error_sound: bool,
    victory_sound: bool,
    shuffle_sound: bool,
    muted: bool,
    initialized: bool,
}

impl AudioManager {
    /// The effect was loaded.
    pub closed spec fn has_sound(&self, sound: Sound) -> bool {
        match sound {
            Sound::Match => self.match_sound,
            Sound::Error => self.error_sound,
            Sound::Victory => self.victory_sound,
            Sound::Shuffle => self.shuffle_sound,
        }
    }

    /// Sound is muted.
    pub closed spec fn muted(&self) -> bool {
        self.muted
    }

    /// The audio device was opened.
    pub closed spec fn initialized(&self) -> bool {
        self.initialized
    }

    /// What asking to play `sound` plays: the effect itself unless muted or missing.
    pub open spec fn played(&self, sound: Sound) -> Option<Sound> {
        if !self.muted() && self.has_sound(sound) { Some(sound) } else { None }
    }

    /// An unmuted manager with the given effects loaded.
    pub fn new(match_sound: bool, error_sound: bool, victory_sound: bool, shuffle_sound: bool, initialized: bool) -> (m: Self)
        ensures
            !m.muted(),
            m.initialized() == initialized,
            m.has_sound(Sound::Match) == match_sound,
            m.has_sound(Sound::Error) == error_sound,
            m.has_sound(Sound::Victory) == victory_sound,
            m.has_sound(Sound::Shuffle) == shuffle_sound,
    {
        AudioManager { match_sound, error_sound, victory_sound, shuffle_sound, muted: false, initialized }
    }

    fn play(&self, sound: Sound) -> (played: Option<Sound>)
        ensures
            played == self.played(sound),
    {
        if self.muted {
            return None;
        }
        let loaded = match sound {
            Sound::Match => self.match_sound,
            Sound::Error => self.error_sound,
            Sound::Victory => self.victory_sound,
            Sound::Shuffle => self.shuffle_sound,
        };
        if loaded { Some(sound) } else { None }
    }

    /// The match effect to play, if any.
    pub fn play_match(&self) -> (played: Option<Sound>)
        ensures
            played == self.played(Sound::Match),
    {
        self.play(Sound::Match)
    }

    /// The mismatch effect to play, if any.
    pub fn play_error(&self) -> (played: Option<Sound>)
        ensures
            played == self.played(Sound::Error),
    {
        self.play(Sound::Error)
    }

    /// The victory effect to play, if any.
    pub fn play_victory(&self) -> (played: Option<Sound>)
        ensures
            played == self.played(Sound::Victory),
    {
        self.play(Sound::Victory)
    }

    /// The shuffle effect to play, if any.
    pub fn play_shuffle(&self) -> (played: Option<Sound>)
        ensures
            played == self.played(Sound::Shuffle),
    {
        self.play(Sound::Shuffle)
    }

    /// Flips the mute state.
    pub fn toggle_mute(&mut self)
        ensures
            final(self).muted() == !old(self).muted(),
            forall|s: Sound| final(self).has_sound(s) == old(self).has_sound(s),
            final(self).initialized() == old(self).initialized(),
    {
        self.muted = !self.muted;
    }

    /// Whether sound is muted.
    pub fn is_muted(&self) -> (muted: bool)
        ensures
            muted == self.muted(),
    {
        self.muted
    }

    /// Sets the mute state.
    pub fn set_mute(&mut self, muted: bool)
        ensures
            final(self).muted() == muted,
            forall|s: Sound| final(self).has_sound(s) == old(self).has_sound(s),
            final(self).initialized() == old(self).initialized(),
    {
        self.muted = muted;
    }
}

/// A muted manager plays nothing; an unmuted one plays each effect it has.
pub proof fn lemma_mute_laws(m: AudioManager, s: Sound)
    ensures
        m.muted() ==> m.played(s) is None,
        !m.muted() && m.has_sound(s) ==> m.played(s) == Some(s),
{
}

} // verus!
