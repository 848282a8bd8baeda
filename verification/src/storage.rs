//! Persistent records: the leaderboard, trophies, settings, the daily shuffle
//! bonus and saved games. Reading and writing the files happens outside the
//! library; these are the values and the rules on them.

use vstd::prelude::*;

use crate::text::{decimal, push_decimal, same_text, string_of};

verus! {

/// One completed game on the leaderboard.
#[derive(Debug, Clone, PartialEq)]
pub struct LeaderboardEntry {
    /// Player name (1-20 characters).
    pub name: String,
    /// Final score.
    pub score: u32,
    /// Time to complete, in seconds.
    pub time_seconds: u32,
    /// Hints used.
    pub hints_used: u32,
    /// Shuffles used.
    pub shuffles_used: u32,
    /// Undos used.
    pub undos_used: u32,
    /// Difficulty ("easy" or "normal").
    pub difficulty: String,
    /// Completion date, `YYYY-MM-DD`.
    pub date: String,
    /// Consecutive days played when the score was reached.
    pub consecutive_days: u32,
}

/// The achievement labels earned by an entry, in this order: no hints, no
/// shuffles, no undos, a time under three minutes, and a streak of more than one day.
pub open spec fn achievements(e: LeaderboardEntry) -> Seq<Seq<char>> {
    (if e.hints_used == 0 { seq!["NO-HNT"@] } else { Seq::empty() })
        + (if e.shuffles_used == 0 { seq!["NO-SHF"@] } else { Seq::empty() })
        + (if e.undos_used == 0 { seq!["NO-UND"@] } else { Seq::empty() })
        + (if 0 < e.time_seconds < 180 { seq!["SPEEDY"@] } else { Seq::empty() })
        + (if e.consecutive_days > 1 { seq!["STRK:"@ + decimal(e.consecutive_days as nat)] } else { Seq::empty() })
}

/// The contents of each string of `v`.
pub open spec fn string_views(v: Seq<String>) -> Seq<Seq<char>> {
    v.map_values(|s: String| s@)
}

/// Appends `label` to `labels` when `earned`.
fn add_label(labels: &mut Vec<String>, earned: bool, label: &str)
    ensures
        string_views(final(labels)@) == string_views(old(labels)@) + if earned { seq![label@] } else { Seq::empty() },
{
    let ghost before = labels@;
    if earned {
        labels.push(string_of(label));
    }
    assert(string_views(labels@) =~= string_views(before) + if earned { seq![label@] } else { Seq::empty() });
}

impl LeaderboardEntry {
    /// A name is valid when it has 1 to 20 characters.
    pub fn is_valid_name(name: &str) -> (ok: bool)
        ensures
            ok == (1 <= name@.len() <= 20),
    {
        let len = name.unicode_len();
        1 <= len && len <= 20
    }

    /// The achievement labels this entry earned.
    pub fn get_achievements(&self) -> (labels: Vec<String>)
        ensures
            string_views(labels@) == achievements(*self),
    {
        let mut labels: Vec<String> = Vec::new();
        add_label(&mut labels, self.hints_used == 0, "NO-HNT");
        add_label(&mut labels, self.shuffles_used == 0, "NO-SHF");
        add_label(&mut labels, self.undos_used == 0, "NO-UND");
        add_label(&mut labels, self.time_seconds > 0 && self.time_seconds < 180, "SPEEDY");
        let ghost before = labels@;
        if self.consecutive_days > 1 {
            let mut streak = string_of("STRK:");
            push_decimal(&mut streak, self.consecutive_days as u64);
            labels.push(streak);
        }
        assert(string_views(labels@) =~= achievements(*self));
        labels
    }
}

/// The leaderboard; it keeps only the last entry.
#[derive(Debug, Clone)]
pub struct Leaderboard {
    /// The stored entries.
    pub entries: Vec<LeaderboardEntry>,
}

impl Default for Leaderboard {
    fn default() -> (lb: Self)
        ensures
            lb.entries@.len() == 0,
    {
        Leaderboard { entries: Vec::new() }
    }
}

impl Leaderboard {
    /// Every score qualifies.
    pub fn qualifies(&self, _score: u32) -> (q: bool)
        ensures
            q,
    {
        true
    }

    /// Stores `entry` in place of whatever was there.
    pub fn insert(&mut self, entry: LeaderboardEntry)
        ensures
            final(self).entries@ == seq![entry],
    {
        self.entries.clear();
        self.entries.push(entry);
        assert(self.entries@ =~= seq![entry]);
    }
}

/// Counts of repeatable achievements.
#[derive(Debug, Clone)]
pub struct TrophyState {
    /// Levels completed with no mismatch.
    pub perfect_combo_count: u32,
    /// Levels completed within the time threshold.
    pub rapid_clear_count: u32,
    /// Levels cleared without hints.
    pub no_hints_count: u32,
    /// Levels cleared without shuffles.
    pub no_shuffles_count: u32,
    /// Levels cleared without undos.
    pub no_undos_count: u32,
}

impl Default for TrophyState {
    fn default() -> (t: Self)
        ensures
            t.perfect_combo_count == 0,
            t.rapid_clear_count == 0,
            t.no_hints_count == 0,
            t.no_shuffles_count == 0,
            t.no_undos_count == 0,
    {
        TrophyState { perfect_combo_count: 0, rapid_clear_count: 0, no_hints_count: 0, no_shuffles_count: 0, no_undos_count: 0 }
    }
}

/// Rapid-clear time limit in seconds by level: 120 for levels 1-10, 180 for
/// 11-20, 240 for 21-30, 300 for 31-40, and 360 otherwise.
pub open spec fn rapid_clear_limit(level: u32) -> u32 {
    if 1 <= level <= 10 { 120 } else if 11 <= level <= 20 { 180 } else if 21 <= level <= 30 { 240 }
    else if 31 <= level <= 40 { 300 } else { 360 }
}

/// Counters of a trophy state other than the one named by a check.
pub open spec fn others_unchanged(a: TrophyState, b: TrophyState, which: int) -> bool {
    &&& which != 0 ==> a.perfect_combo_count == b.perfect_combo_count
    &&& which != 1 ==> a.rapid_clear_count == b.rapid_clear_count
    &&& which != 2 ==> a.no_hints_count == b.no_hints_count
    &&& which != 3 ==> a.no_shuffles_count == b.no_shuffles_count
    &&& which != 4 ==> a.no_undos_count == b.no_undos_count
}

impl TrophyState {
    /// The rapid-clear time limit for `level`.
    pub fn rapid_clear_threshold(level: u32) -> (t: u32)
        ensures
            t == rapid_clear_limit(level),
    {
        if 1 <= level && level <= 10 {
            120
        } else if 11 <= level && level <= 20 {
            180
        } else if 21 <= level && level <= 30 {
            240
        } else if 31 <= level && level <= 40 {
            300
        } else {
            360
        }
    }

    /// A level with no mismatch earns a perfect combo: counts it and says so.
    pub fn check_perfect_combo(&mut self, mismatches: u32) -> (earned: bool)
        requires
            mismatches == 0 ==> old(self).perfect_combo_count < u32::MAX,
        ensures
            earned == (mismatches == 0),
            final(self).perfect_combo_count == old(self).perfect_combo_count + if earned { 1int } else { 0int },
            others_unchanged(*final(self), *old(self), 0),
    {
        if mismatches == 0 {
            self.perfect_combo_count = self.perfect_combo_count + 1;
            true
        } else {
            false
        }
    }

    /// A level finished after more than 0 and at most the limit's seconds earns
    /// a rapid clear: counts it and says so.
    pub fn check_rapid_clear(&mut self, level: u32, elapsed_seconds: u32) -> (earned: bool)
        requires
            0 < elapsed_seconds <= rapid_clear_limit(level) ==> old(self).rapid_clear_count < u32::MAX,
        ensures
            earned == (0 < elapsed_seconds <= rapid_clear_limit(level)),
            final(self).rapid_clear_count == old(self).rapid_clear_count + if earned { 1int } else { 0int },
            others_unchanged(*final(self), *old(self), 1),
    {
        let threshold = Self::rapid_clear_threshold(level);
        if elapsed_seconds > 0 && elapsed_seconds <= threshold {
            self.rapid_clear_count = self.rapid_clear_count + 1;
            true
        } else {
            false
        }
    }

    /// A level cleared without hints: counts it and says so.
    pub fn check_no_hints(&mut self, hints_used: u32) -> (earned: bool)
        requires
            hints_used == 0 ==> old(self).no_hints_count < u32::MAX,
        ensures
            earned == (hints_used == 0),
            final(self).no_hints_count == old(self).no_hints_count + if earned { 1int } else { 0int },
            others_unchanged(*final(self), *old(self), 2),
    {
        if hints_used == 0 {
            self.no_hints_count = self.no_hints_count + 1;
            true
        } else {
            false
        }
    }

    /// A level cleared without shuffles: counts it and says so.
    pub fn check_no_shuffles(&mut self, shuffles_used: u32) -> (earned: bool)
        requires
            shuffles_used == 0 ==> old(self).no_shuffles_count < u32::MAX,
        ensures
            earned == (shuffles_used == 0),
            final(self).no_shuffles_count == old(self).no_shuffles_count + if earned { 1int } else { 0int },
            others_unchanged(*final(self), *old(self), 3),
    {
        if shuffles_used == 0 {
            self.no_shuffles_count = self.no_shuffles_count + 1;
            true
        } else {
            false
        }
    }

    /// A level cleared without undos: counts it and says so.
    pub fn check_no_undos(&mut self, undos_used: u32) -> (earned: bool)
        requires
            undos_used == 0 ==> old(self).no_undos_count < u32::MAX,
        ensures
            earned == (undos_used == 0),
            final(self).no_undos_count == old(self).no_undos_count + if earned { 1int } else { 0int },
            others_unchanged(*final(self), *old(self), 4),
    {
        if undos_used == 0 {
            self.no_undos_count = self.no_undos_count + 1;
            true
        } else {
            false
        }
    }
}

/// Settings kept across sessions.
#[derive(Debug, Clone)]
pub struct Settings {
    /// Whether audio is muted.
    pub muted: bool,
}

impl Default for Settings {
    fn default() -> (s: Self)
        ensures
            !s.muted,
    {
        Settings { muted: false }
    }
}

/// The daily shuffle bonus record.
#[derive(Debug, Clone)]
pub struct ShuffleState {
    /// The last date (`YYYY-MM-DD`) a daily bonus was given.
    pub last_bonus_date: String,
    /// Days since the Unix epoch of the last launch.
    pub last_launch_epoch_days: u64,
    /// Consecutive days launched.
    pub consecutive_days: u32,
}

impl Default for ShuffleState {
    fn default() -> (s: Self)
        ensures
            s.last_bonus_date@ == Seq::<char>::empty(),
            s.last_launch_epoch_days == 0,
            s.consecutive_days == 0,
    {
        ShuffleState { last_bonus_date: String::new(), last_launch_epoch_days: 0, consecutive_days: 0 }
    }
}

impl ShuffleState {
    /// Gives the daily bonus when `today` differs from the last bonus date,
    /// recording `today`; says whether it did.
    pub fn claim_daily_bonus(&mut self, today: &str) -> (given: bool)
        ensures
            given == (old(self).last_bonus_date@ != today@),
            final(self).last_bonus_date@ == today@,
            final(self).last_launch_epoch_days == old(self).last_launch_epoch_days,
            final(self).consecutive_days == old(self).consecutive_days,
    {
        if !same_text(self.last_bonus_date.as_str(), today) {
            self.last_bonus_date = string_of(today);
            true
        } else {
            false
        }
    }
}

/// A game saved to be resumed later.
#[derive(Debug, Clone, PartialEq)]
pub struct SavedGame {
    /// For each slot, the face of its tile, or `None` when empty.
    pub tiles: Vec<Option<u8>>,
    /// Undo stack entries as (position a, face a, position b, face b).
    pub undo_stack: Vec<(usize, u8, usize, u8)>,
    /// Elapsed milliseconds at the time of saving.
    pub elapsed_ms: u64,
    /// Hints used.
    pub hints_used: u32,
    /// Shuffles used.
    pub shuffles_used: u32,
    /// Shuffles remaining.
    pub shuffles_remaining: u32,
    /// Pairs matched so far.
    pub pairs_matched: u32,
    /// Undos used this level.
    pub undos_used: u32,
    /// Current level.
    pub level: u32,
    /// Score accumulated over previous levels.
    pub base_score: u32,
    /// Milliseconds accumulated over previous levels.
    pub base_time_ms: u64,
    /// Hints used over previous levels.
    pub base_hints: u32,
    /// Shuffles used over previous levels.
    pub base_shuffles: u32,
    /// Undos used over previous levels.
    pub base_undos: u32,
    /// Difficulty ("easy" or "normal").
    pub difficulty: String,
}

/// The level assumed by save files that do not record one.
pub fn default_level() -> (level: u32)
    ensures
        level == 1,
{
    1
}

/// The difficulty assumed by records that do not hold one.
pub fn default_difficulty_str() -> (d: String)
    ensures
        d@ == "easy"@,
{
    string_of("easy")
}

impl SavedGame {
    /// Keeps a loaded save only when its level is between 1 and 100.
    pub fn accept_loaded(saved: Option<SavedGame>) -> (r: Option<SavedGame>)
        ensures
            r == if saved matches Some(s) && 1 <= s.level <= 100 { saved } else { None },
    {
        match saved {
            Some(s) => if 1 <= s.level && s.level <= 100 { Some(s) } else { None },
            None => None,
        }
    }
}

} // verus!
