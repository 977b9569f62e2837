use std::collections::HashMap;
use vstd::prelude::*;

use crate::game_logic::{
    compute_feedback, feedback_of, fresh_keyboard, hard_mode_ok, is_valid_hard_mode,
    keyboard_after, known_after, min_counts_after, new_keyboard, update_hard_mode_constraints,
    update_keyboard,
};
use crate::order::views;
use crate::session::is_playable_word;
use crate::status::Status;
use crate::tui::can_judge;

verus! {

/// Number of guesses a player has in a round.
pub const MAX_ATTEMPTS: usize = 6;

/// One round of the line-by-line game: the answer, the guesses so far and
/// what they revealed.
pub struct Round {
    pub answer: String,
    pub hard: bool,
    pub guesses: Vec<String>,
    pub keyboard: HashMap<u32, Status>,
    pub known_positions: [Option<char>; 5],
    pub min_counts: HashMap<u32, usize>,
    pub attempt: usize,
    pub won: bool,
}

/// How a typed guess was taken.
pub enum GuessReply {
    /// Not a five-byte acceptable word, or refused by hard mode: nothing changed.
    Invalid,
    /// Scored, with its feedback.
    Scored(String),
}

/// A guess that can be played: five bytes long and in the acceptable list.
pub open spec fn playable(g: Seq<char>, acceptables: Seq<String>) -> bool {
    vstd::utf8::encode_utf8(g).len() == 5 && views(acceptables).contains(g)
}

/// What a typed guess does to a round: a guess that is not playable, or that
/// hard mode refuses, is invalid and changes nothing; any other guess is
/// scored against the answer, recorded, updates the keyboard (and, in hard
/// mode, the constraints), uses an attempt, and wins when it is the answer.
pub open spec fn after_guess(
    s: Round,
    input: String,
    acceptables: Seq<String>,
    reply: GuessReply,
    t: Round,
) -> bool {
    let g = input@;
    if !playable(g, acceptables) || (s.hard && !hard_mode_ok(g, s.known_positions@, s.min_counts@)) {
        reply is Invalid && t == s
    } else {
        let f = feedback_of(g, s.answer@);
        &&& reply matches GuessReply::Scored(fb) && fb@ == f
        &&& t.answer == s.answer
        &&& t.hard == s.hard
        &&& t.guesses@ == s.guesses@.push(input)
        &&& t.keyboard@ == keyboard_after(s.keyboard@, g, f)
        &&& s.hard ==> t.known_positions@ == known_after(s.known_positions@, g, f)
            && t.min_counts@ == min_counts_after(s.min_counts@, g, f)
        &&& !s.hard ==> t.known_positions == s.known_positions && t.min_counts == s.min_counts
        &&& t.attempt == s.attempt + 1
        &&& t.won == (s.won || g == s.answer@)
    }
}

/// A consistent round: one recorded guess per attempt, and a won round ends
/// with the answer as its last guess.
pub open spec fn round_consistent(s: Round) -> bool {
    &&& s.guesses@.len() == s.attempt
    &&& s.won ==> s.attempt > 0 && s.guesses@.last()@ == s.answer@
}

impl Round {
    /// A new round with the given answer: no guesses, all letters untried.
    pub fn new(answer: String, hard: bool) -> (r: Self)
        ensures
            r.answer == answer,
            r.hard == hard,
            r.guesses@ == Seq::<String>::empty(),
            r.keyboard@ == fresh_keyboard(),
            r.known_positions@ == seq![None::<char>, None, None, None, None],
            r.min_counts@ == Map::<u32, usize>::empty(),
            r.attempt == 0,
            !r.won,
            round_consistent(r),
    {
        let r = Round {
            answer,
            hard,
            guesses: Vec::new(),
            keyboard: new_keyboard(),
            known_positions: [None, None, None, None, None],
            min_counts: HashMap::new(),
            attempt: 0,
            won: false,
        };
        assert(r.known_positions@ =~= seq![None::<char>, None, None, None, None]);
        r
    }

    /// Whether the round is over: won, or out of attempts.
    pub fn is_over(&self) -> (over: bool)
        ensures
            over == (self.won || self.attempt >= MAX_ATTEMPTS),
    {
        self.won || self.attempt >= MAX_ATTEMPTS
    }

    /// Plays a typed (already trimmed and upper-cased) guess: see `after_guess`.
    pub fn guess(&mut self, input: &String, acceptables: &Vec<String>) -> (reply: GuessReply)
        requires
            can_judge(
                playable(input@, acceptables@),
                input@,
                old(self).answer@,
                old(self).hard,
                old(self).known_positions@,
                old(self).min_counts@,
                old(self).attempt,
            ),
        ensures
            after_guess(*old(self), *input, acceptables@, reply, *final(self)),
    {
        if !is_playable_word(input, acceptables) {
            return GuessReply::Invalid;
        }
        if self.hard && !is_valid_hard_mode(input.as_str(), &self.known_positions, &self.min_counts) {
            return GuessReply::Invalid;
        }
        let ghost s0 = *self;
        let feedback = compute_feedback(input.as_str(), self.answer.as_str());
        if self.hard {
            update_hard_mode_constraints(
                input.as_str(),
                feedback.as_str(),
                &mut self.known_positions,
                &mut self.min_counts,
            );
        }
        update_keyboard(input.as_str(), feedback.as_str(), &mut self.keyboard);
        self.guesses.push(input.clone());
        self.attempt = self.attempt + 1;
        if *input == self.answer {
            self.won = true;
        }
        proof {
            assert(self.guesses@ == s0.guesses@.push(*input));
            assert(self.keyboard@ == keyboard_after(s0.keyboard@, input@, feedback@));
        }
        GuessReply::Scored(feedback)
    }
}

/// Playing a guess in a round not yet won keeps it consistent: one recorded
/// guess per attempt, and a won round's last guess is its answer.
pub proof fn lemma_guess_keeps_round_consistent(
    s: Round,
    input: String,
    acceptables: Seq<String>,
    reply: GuessReply,
    t: Round,
)
    requires
        round_consistent(s),
        !s.won,
        after_guess(s, input, acceptables, reply, t),
    ensures
        round_consistent(t),
{
}

} // verus!
