//! Start-up decisions: the developer options given on the command line, and
//! whether a published version number is an update.

use vstd::prelude::*;

use crate::text::{push_char, same_text};
use crate::version::{components_newer, parse_u32, parse_u32_text, version_is_newer, version_numbers};

verus! {

/// The highest level of the game.
pub const MAX_LEVEL: u32 = 50;

/// Developer options: with `enabled`, nothing is saved and play starts at `start_level`.
#[derive(Debug, Clone, Copy, PartialEq, Eq)]
pub struct DevMode {
    /// `--dev` was given.
    pub enabled: bool,
    /// The level given with `--level` (1 to 50), else 1.
    pub start_level: u32,
}

/// The options read from `args[i..]`, starting from `enabled` and `level`:
/// `--dev` turns developer mode on; `--level N` sets the level when N is a
/// number from 1 to 50 (the value is skipped either way); anything else is ignored.
pub open spec fn scan_dev_args(args: Seq<Seq<char>>, i: int, enabled: bool, level: u32) -> (bool, u32)
    decreases args.len() - i,
{
    if i < 0 || i >= args.len() {
        (enabled, level)
    } else if args[i] == "--dev"@ {
        scan_dev_args(args, i + 1, true, level)
    } else if args[i] == "--level"@ && i + 1 < args.len() {
        let next = match parse_u32(args[i + 1]) {
            Some(v) => if 1 <= v <= MAX_LEVEL { v } else { level },
            None => level,
        };
        scan_dev_args(args, i + 2, enabled, next)
    } else {
        scan_dev_args(args, i + 1, enabled, level)
    }
}

/// The command-line arguments as character sequences.
pub open spec fn arg_texts(args: Seq<String>) -> Seq<Seq<char>> {
    args.map_values(|a: String| a@)
}

/// The developer options in `args`, whose first entry is the program name.
pub fn parse_dev_args(args: &Vec<String>) -> (mode: DevMode)
    ensures
        (mode.enabled, mode.start_level) == scan_dev_args(arg_texts(args@), 1, false, 1),
{
    let ghost texts = arg_texts(args@);
    let mut enabled = false;
    let mut start_level: u32 = 1;
    let mut i: usize = 1;
    while i < args.len()
        invariant
            texts == arg_texts(args@),
            texts.len() == args@.len(),
            1 <= i,
            scan_dev_args(texts, i as int, enabled, start_level) == scan_dev_args(texts, 1, false, 1),
        decreases args.len() - i,
    {
        let arg = args[i].as_str();
        assert(texts[i as int] == arg@);
        if same_text(arg, "--dev") {
            enabled = true;
        } else if same_text(arg, "--level") {
            if i + 1 < args.len() {
                let value = args[i + 1].as_str();
                assert(texts[i + 1] == value@);
                if let Some(lvl) = parse_u32_text(value) {
                    if 1 <= lvl && lvl <= MAX_LEVEL {
                        start_level = lvl;
                    }
                }
                i = i + 1;
            }
        }
        i = i + 1;
    }
    DevMode { enabled, start_level }
}

/// `c` is white space by the Unicode `White_Space` property, as `char::is_whitespace` has it.
pub open spec fn is_white_space(c: char) -> bool {
    ||| '\u{9}' <= c <= '\u{d}'
    ||| c == ' ' || c == '\u{85}' || c == '\u{a0}' || c == '\u{1680}'
    ||| '\u{2000}' <= c <= '\u{200a}'
    ||| c == '\u{2028}' || c == '\u{2029}' || c == '\u{202f}' || c == '\u{205f}' || c == '\u{3000}'
}

fn white_space(c: char) -> (w: bool)
    ensures
        w == is_white_space(c),
{
    ('\u{9}' <= c && c <= '\u{d}') || c == ' ' || c == '\u{85}' || c == '\u{a0}' || c == '\u{1680}'
        || ('\u{2000}' <= c && c <= '\u{200a}') || c == '\u{2028}' || c == '\u{2029}' || c == '\u{202f}'
        || c == '\u{205f}' || c == '\u{3000}'
}

/// `s` without its leading and trailing white space, as `str::trim` gives it:
/// the part from the first to the last character that is not white space.
pub open spec fn trimmed(s: Seq<char>) -> Seq<char> {
    if forall|k: int| 0 <= k < s.len() ==> is_white_space(#[trigger] s[k]) {
        Seq::empty()
    } else {
        let first = choose|a: int| 0 <= a < s.len() && !is_white_space(s[a]) && forall|k: int| 0 <= k < a ==> is_white_space(#[trigger] s[k]);
        let last = choose|b: int| 0 <= b < s.len() && !is_white_space(s[b]) && forall|k: int| b < k < s.len() ==> is_white_space(#[trigger] s[k]);
        s.subrange(first, last + 1)
    }
}

/// `s` without leading and trailing white space (see `trimmed`).
pub fn trim_text(s: &str) -> (t: String)
    ensures
        t@ == trimmed(s@),
{
    let n = s.unicode_len();
    let mut a: usize = 0;
    while a < n && white_space(s.get_char(a))
        invariant
            n == s@.len(),
            a <= n,
            forall|k: int| 0 <= k < a ==> is_white_space(#[trigger] s@[k]),
        decreases n - a,
    {
        a = a + 1;
    }
    let mut t = String::new();
    if a == n {
        assert(forall|k: int| 0 <= k < s@.len() ==> is_white_space(#[trigger] s@[k]));
        return t;
    }
    let mut b: usize = n - 1;
    while white_space(s.get_char(b))
        invariant
            n == s@.len(),
            a < n,
            a <= b < n,
            !is_white_space(s@[a as int]),
            forall|k: int| b < k < n ==> is_white_space(#[trigger] s@[k]),
        decreases b,
    {
        b = b - 1;
    }
    proof {
        let first = choose|x: int| 0 <= x < s@.len() && !is_white_space(s@[x]) && forall|k: int| 0 <= k < x ==> is_white_space(#[trigger] s@[k]);
        let last = choose|y: int| 0 <= y < s@.len() && !is_white_space(s@[y]) && forall|k: int| y < k < s@.len() ==> is_white_space(#[trigger] s@[k]);
        assert(0 <= a < s@.len() && !is_white_space(s@[a as int]) && forall|k: int| 0 <= k < a ==> is_white_space(#[trigger] s@[k]));
        assert(0 <= b < s@.len() && !is_white_space(s@[b as int]) && forall|k: int| b < k < s@.len() ==> is_white_space(#[trigger] s@[k]));
        if first < a {
            assert(is_white_space(s@[first]));
        } else if first > a {
            assert(is_white_space(s@[a as int]));
        }
        if last < b {
            assert(is_white_space(s@[b as int]));
        } else if last > b {
            assert(is_white_space(s@[last]));
        }
        assert(first == a && last == b);
    }
    let mut i: usize = a;
    while i <= b
        invariant
            n == s@.len(),
            a <= i <= b + 1,
            b < n,
            t@ =~= s@.subrange(a as int, i as int),
        decreases b + 1 - i,
    {
        push_char(&mut t, s.get_char(i));
        i = i + 1;
    }
    t
}

/// The version published as `body` (white space around it ignored), when it
/// is not empty and is newer than `current` by `components_newer`.
pub fn update_available(body: &str, current: &str) -> (latest: Option<String>)
    ensures
        match latest {
            Some(v) => v@ == trimmed(body@) && v@.len() > 0
                && components_newer(version_numbers(v@), version_numbers(current@)),
            None => trimmed(body@).len() == 0
                || !components_newer(version_numbers(trimmed(body@)), version_numbers(current@)),
        },
{
    let latest = trim_text(body);
    if latest.as_str().unicode_len() == 0 {
        return None;
    }
    if version_is_newer(latest.as_str(), current) {
        Some(latest)
    } else {
        None
    }
}

} // verus!
