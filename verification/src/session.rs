use std::collections::HashMap;
use vstd::prelude::*;
use vstd::std_specs::hash::group_hash_axioms;

use crate::args::Args;
use crate::order::views;
use crate::status::{Status, status_char};
use crate::text::{chars_of, trim_chars, trimmed, string_from_chars, utf8_length_capped, push_char};
use crate::tui::word_listed;
use crate::word_sets::{to_uppercase, uppercase_of};

verus! {

/// Options that cannot be used together.
#[derive(Debug, Clone, Copy, PartialEq, Eq, Structural)]
pub enum ArgsError {
    /// The terminal front end does not support random mode.
    TuiWithRandom,
    /// A fixed answer and random mode exclude each other.
    RandomWithWord,
    /// A day or seed makes no sense with a fixed answer.
    DaySeedWithWord,
}

/// Refuses the terminal front end together with random mode.
pub fn check_mode_conflict(args: &Args) -> (r: Result<(), ArgsError>)
    ensures
        r == (if args.tui && args.random {
            Err(ArgsError::TuiWithRandom)
        } else {
            Ok(())
        }),
{
    if args.tui && args.random {
        Err(ArgsError::TuiWithRandom)
    } else {
        Ok(())
    }
}

/// Refuses a fixed answer together with random mode, or with a day or seed.
pub fn check_word_conflicts(args: &Args) -> (r: Result<(), ArgsError>)
    ensures
        r == (if args.random && args.word is Some {
            Err(ArgsError::RandomWithWord)
        } else if (args.day is Some || args.seed is Some) && args.word is Some {
            Err(ArgsError::DaySeedWithWord)
        } else {
            Ok(())
        }),
{
    if args.random && args.word.is_some() {
        Err(ArgsError::RandomWithWord)
    } else if (args.day.is_some() || args.seed.is_some()) && args.word.is_some() {
        Err(ArgsError::DaySeedWithWord)
    } else {
        Ok(())
    }
}

/// Whether every word of the first list is in the second.
pub fn is_subset(finals: &Vec<String>, acceptables: &Vec<String>) -> (r: bool)
    ensures
        r == forall|i: int|
            0 <= i < finals@.len() ==> views(acceptables@).contains(#[trigger] finals@[i]@),
{
    let n = finals.len();
    for i in 0..n
        invariant
            n == finals@.len(),
            forall|j: int| 0 <= j < i ==> views(acceptables@).contains(#[trigger] finals@[j]@),
    {
        if !word_listed(acceptables, &finals[i]) {
            return false;
        }
    }
    true
}

/// A typed word as the game reads it: trimmed and upper-cased.
pub fn normalize_word(s: &str) -> (w: String)
    ensures
        w@ == uppercase_of(trimmed(s@)),
{
    let cs = chars_of(s);
    let t = trim_chars(&cs);
    let plain = string_from_chars(t.as_slice());
    to_uppercase(plain.as_str())
}

/// Whether a word is five bytes long and in the list.
pub fn is_playable_word(w: &String, list: &Vec<String>) -> (r: bool)
    ensures
        r == (vstd::utf8::encode_utf8(w@).len() == 5 && views(list@).contains(w@)),
{
    utf8_length_capped(w.as_str(), 5) == 5 && word_listed(list, w)
}

/// Whether an answer to "play again?" is yes: `Y` or `y`, ignoring surrounding white space.
pub fn wants_another_round(line: &str) -> (r: bool)
    ensures
        r == (trimmed(line@) == seq!['Y'] || trimmed(line@) == seq!['y']),
{
    let cs = chars_of(line);
    let t = trim_chars(&cs);
    if t.len() == 1 && (t[0] == 'Y' || t[0] == 'y') {
        assert(t@ =~= seq![t@[0]]);
        true
    } else {
        false
    }
}

/// The status shown for a letter key: its entry, or not yet tried.
pub open spec fn status_at(kb: Map<u32, Status>, k: u32) -> Status {
    if kb.contains_key(k) {
        kb[k]
    } else {
        Status::Unknown
    }
}

/// The keyboard as one line: the status character of each letter `A` to `Z`.
pub open spec fn keyboard_summary(kb: Map<u32, Status>) -> Seq<char> {
    Seq::new(26, |i: int| status_char(status_at(kb, (0x41 + i) as u32)))
}

/// The keyboard as one line of 26 status characters, `A` to `Z`.
pub fn keyboard_line(keyboard: &HashMap<u32, Status>) -> (line: String)
    ensures
        line@ == keyboard_summary(keyboard@),
{
    broadcast use group_hash_axioms;
    let mut line = String::new();
    for k in 0x41u32..0x5bu32
        invariant
            line@ == keyboard_summary(keyboard@).take(k - 0x41),
    {
        let st = match keyboard.get(&k) {
            Some(s) => *s,
            None => Status::Unknown,
        };
        push_char(&mut line, st.to_char());
        assert(line@ =~= keyboard_summary(keyboard@).take(k + 1 - 0x41));
    }
    assert(keyboard_summary(keyboard@).take(26) =~= keyboard_summary(keyboard@));
    line
}


/// Why an answer was refused.
#[derive(Debug, Clone, Copy, PartialEq, Eq, Structural)]
pub enum AnswerError {
    /// The answer is not five bytes long.
    WrongLength,
    /// The answer is not among the final words.
    NotListed,
}

/// Reads the answer for a round from a typed line: trimmed and upper-cased,
/// it must be five bytes long and, in an interactive session, a final word.
pub fn accept_typed_answer(line: &str, finals: &Vec<String>, interactive: bool) -> (r: Result<
    String,
    AnswerError,
>)
    ensures
        ({
            let w = uppercase_of(trimmed(line@));
            match r {
                Ok(s) => s@ == w && vstd::utf8::encode_utf8(w).len() == 5 && (interactive ==> views(
                    finals@,
                ).contains(w)),
                Err(AnswerError::WrongLength) => vstd::utf8::encode_utf8(w).len() != 5,
                Err(AnswerError::NotListed) => vstd::utf8::encode_utf8(w).len() == 5 && interactive
                    && !views(finals@).contains(w),
            }
        }),
{
    let w = normalize_word(line);
    if utf8_length_capped(w.as_str(), 5) != 5 {
        return Err(AnswerError::WrongLength);
    }
    if interactive && !word_listed(finals, &w) {
        return Err(AnswerError::NotListed);
    }
    Ok(w)
}

/// Reads the answer given on the command line: trimmed and upper-cased, it
/// must be a five-byte final word.
pub fn accept_fixed_answer(word: &str, finals: &Vec<String>) -> (r: Option<String>)
    ensures
        ({
            let w = uppercase_of(trimmed(word@));
            match r {
                Some(s) => s@ == w && vstd::utf8::encode_utf8(w).len() == 5 && views(
                    finals@,
                ).contains(w),
                None => !(vstd::utf8::encode_utf8(w).len() == 5 && views(finals@).contains(w)),
            }
        }),
{
    let w = normalize_word(word);
    if is_playable_word(&w, finals) {
        Some(w)
    } else {
        None
    }
}

/// Whether a round is skipped: in random mode, an answer already played in
/// this session is passed over.
pub fn skips_answer(random: bool, played: &Vec<String>, answer: &String) -> (skip: bool)
    ensures
        skip == (random && views(played@).contains(answer@)),
{
    random && word_listed(played, answer)
}

} // verus!
