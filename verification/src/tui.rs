use std::collections::HashMap;
use vstd::prelude::*;

use crate::game_logic::{
    compute_feedback, feedback_of, fixed_scan_in_guess, fresh_keyboard, hard_mode_ok, is_valid_hard_mode,
    keyboard_after, known_after, min_counts_after, new_keyboard, update_hard_mode_constraints,
    update_keyboard,
};
use crate::order::views;
use crate::status::Status;
use crate::text::{
    ascii_letter, ascii_upper, decimal, is_ascii_letter, pop_char, push_char, to_ascii_upper,
    utf8_length_capped,
};

verus! {

/// The prompt shown while a guess is being typed.
pub open spec fn prompt_text() -> Seq<char> {
    "猜测一个五字母单词，按回车确认"@
}

/// Shown when Enter is pressed before five letters are typed.
pub open spec fn incomplete_text() -> Seq<char> {
    "请输入完整的五字母单词"@
}

/// Shown when the guess is not in the list of acceptable words.
pub open spec fn not_listed_text() -> Seq<char> {
    "单词不在词库中"@
}

/// Shown when a hard-mode guess ignores what is known.
pub open spec fn hard_mode_text() -> Seq<char> {
    "困难模式：必须使用已知信息"@
}

/// Shown after a win on the given attempt.
pub open spec fn win_text(attempt: nat) -> Seq<char> {
    "🎉 恭喜！你在第 "@ + decimal(attempt) + " 次猜中了！按 ESC 退出"@
}

/// Shown when the attempts run out.
pub open spec fn lose_text(answer: Seq<char>) -> Seq<char> {
    "游戏结束！答案是 "@ + answer + "。按 ESC 退出"@
}

/// A key press, as far as the game tells keys apart.
#[derive(Clone, Copy, Debug, PartialEq, Eq, Structural)]
pub enum Key {
    Esc,
    Enter,
    Backspace,
    Char(char),
    Other,
}

/// The state of one game in the terminal front end.
pub struct TuiApp {
    pub answer: String,
    pub current_input: String,
    pub guesses: Vec<String>,
    pub feedbacks: Vec<String>,
    pub keyboard: HashMap<u32, Status>,
    pub attempt: usize,
    pub max_attempts: usize,
    pub won: bool,
    pub finished: bool,
    pub message: String,
    pub is_hard_mode: bool,
    pub finals_set: Vec<String>,
    pub acceptables_set: Vec<String>,
    pub known_positions: [Option<char>; 5],
    pub min_counts: HashMap<u32, usize>,
}

/// Whether the list holds the word.
pub fn word_listed(words: &Vec<String>, w: &String) -> (r: bool)
    ensures
        r == views(words@).contains(w@),
{
    let n = words.len();
    for i in 0..n
        invariant
            n == words@.len(),
            forall|j: int| 0 <= j < i ==> words@[j]@ != w@,
    {
        if words[i] == *w {
            assert(views(words@)[i as int] == w@);
            return true;
        }
    }
    assert forall|j: int| 0 <= j < views(words@).len() implies views(words@)[j] != w@ by {
        assert(words@[j]@ != w@);
    }
    false
}

/// Two states agree on everything the game keeps, except possibly the
/// current input and the message.
pub open spec fn same_game(s: TuiApp, t: TuiApp) -> bool {
    &&& t.answer == s.answer
    &&& t.guesses == s.guesses
    &&& t.feedbacks == s.feedbacks
    &&& t.keyboard == s.keyboard
    &&& t.attempt == s.attempt
    &&& t.max_attempts == s.max_attempts
    &&& t.won == s.won
    &&& t.finished == s.finished
    &&& t.is_hard_mode == s.is_hard_mode
    &&& t.finals_set == s.finals_set
    &&& t.acceptables_set == s.acceptables_set
    &&& t.known_positions == s.known_positions
    &&& t.min_counts == s.min_counts
}

/// What submitting the typed guess does: a guess outside the acceptable
/// words, or one that breaks hard mode, only changes the message; any other
/// guess is scored, recorded and cleared, and may win or end the game.
pub open spec fn after_submit(s: TuiApp, t: TuiApp) -> bool {
    let g = s.current_input@;
    if !views(s.acceptables_set@).contains(g) {
        same_game(s, t) && t.current_input == s.current_input && t.message@ == not_listed_text()
    } else if s.is_hard_mode && !hard_mode_ok(g, s.known_positions@, s.min_counts@) {
        same_game(s, t) && t.current_input == s.current_input && t.message@ == hard_mode_text()
    } else {
        let f = feedback_of(g, s.answer@);
        &&& t.answer == s.answer
        &&& t.max_attempts == s.max_attempts
        &&& t.is_hard_mode == s.is_hard_mode
        &&& t.finals_set == s.finals_set
        &&& t.acceptables_set == s.acceptables_set
        &&& t.current_input@ == Seq::<char>::empty()
        &&& t.guesses@ == s.guesses@.push(s.current_input)
        &&& t.feedbacks@.len() == s.feedbacks@.len() + 1
        &&& t.feedbacks@.drop_last() == s.feedbacks@
        &&& t.feedbacks@.last()@ == f
        &&& t.keyboard@ == keyboard_after(s.keyboard@, g, f)
        &&& s.is_hard_mode ==> t.known_positions@ == known_after(s.known_positions@, g, f)
            && t.min_counts@ == min_counts_after(s.min_counts@, g, f)
        &&& !s.is_hard_mode ==> t.known_positions == s.known_positions && t.min_counts
            == s.min_counts
        &&& t.attempt == s.attempt + 1
        &&& (g == s.answer@ ==> t.won && t.finished && t.message@ == win_text(t.attempt as nat))
        &&& (g != s.answer@ && t.attempt >= s.max_attempts ==> t.won == s.won && t.finished
            && t.message@ == lose_text(s.answer@))
        &&& (g != s.answer@ && t.attempt < s.max_attempts ==> t.won == s.won && t.finished
            == s.finished && t.message@ == prompt_text())
    }
}

/// What judging a guess needs: for a listed guess in hard mode, scanning the
/// fixed places does not run past the guess before a mismatch; for a guess that is then scored (listed, and
/// allowed by hard mode where it is on), the guess and the answer have five
/// letters and the attempt counter can still grow.
pub open spec fn can_judge(
    listed: bool,
    g: Seq<char>,
    answer: Seq<char>,
    hard: bool,
    known: Seq<Option<char>>,
    min_counts: Map<u32, usize>,
    attempt: usize,
) -> bool {
    &&& listed && hard ==> fixed_scan_in_guess(g, known)
    &&& listed && (!hard || hard_mode_ok(g, known, min_counts)) ==> g.len() >= 5 && answer.len()
        >= 5 && attempt < usize::MAX
}

/// What a submission needs: see `can_judge`.
pub open spec fn can_submit(s: TuiApp) -> bool {
    can_judge(
        views(s.acceptables_set@).contains(s.current_input@),
        s.current_input@,
        s.answer@,
        s.is_hard_mode,
        s.known_positions@,
        s.min_counts@,
        s.attempt,
    )
}

/// What a key press does, and whether it asks to leave: once the game is
/// over only Esc matters (and leaves); otherwise Esc leaves, Enter submits five
/// typed bytes or asks for more, Backspace deletes the last character, a
/// letter is typed upper-cased while fewer than five bytes are typed, and any
/// other key does nothing.
pub open spec fn after_key(s: TuiApp, key: Key, leave: bool, t: TuiApp) -> bool {
    if s.finished {
        leave == (key == Key::Esc) && t == s
    } else {
        match key {
            Key::Esc => leave && t == s,
            Key::Enter => !leave && (if input_bytes(s) == 5 {
                after_submit(s, t)
            } else {
                same_game(s, t) && t.current_input == s.current_input && t.message@
                    == incomplete_text()
            }),
            Key::Backspace => !leave && same_game(s, t) && t.message@ == prompt_text() && (if s.current_input@.len() == 0 {
                t.current_input@ == s.current_input@
            } else {
                t.current_input@ == s.current_input@.drop_last()
            }),
            Key::Char(c) => !leave && (if is_ascii_letter(ascii_upper(c)) && input_bytes(s) < 5 {
                same_game(s, t) && t.current_input@ == s.current_input@.push(ascii_upper(c))
                    && t.message@ == prompt_text()
            } else {
                t == s
            }),
            Key::Other => !leave && t == s,
        }
    }
}

/// UTF-8 length of the typed input.
pub open spec fn input_bytes(s: TuiApp) -> nat {
    vstd::utf8::encode_utf8(s.current_input@).len()
}

impl TuiApp {
    /// A new game with the given answer, mode and word lists: no guesses, all
    /// letters untried, six attempts, and the typing prompt.
    pub fn new(
        answer: String,
        is_hard_mode: bool,
        finals_set: Vec<String>,
        acceptables_set: Vec<String>,
    ) -> (app: Self)
        ensures
            app.answer == answer,
            app.current_input@ == Seq::<char>::empty(),
            app.guesses@ == Seq::<String>::empty(),
            app.feedbacks@ == Seq::<String>::empty(),
            app.keyboard@ == fresh_keyboard(),
            app.attempt == 0,
            app.max_attempts == 6,
            !app.won,
            !app.finished,
            app.message@ == prompt_text(),
            app.is_hard_mode == is_hard_mode,
            app.finals_set == finals_set,
            app.acceptables_set == acceptables_set,
            app.known_positions@ == seq![None::<char>, None, None, None, None],
            app.min_counts@ == Map::<u32, usize>::empty(),
            play_consistent(app),
    {
        let keyboard = new_keyboard();
        let app = TuiApp {
            answer,
            current_input: String::new(),
            guesses: Vec::new(),
            feedbacks: Vec::new(),
            keyboard,
            attempt: 0,
            max_attempts: 6,
            won: false,
            finished: false,
            message: String::from_str("猜测一个五字母单词，按回车确认"),
            is_hard_mode,
            finals_set,
            acceptables_set,
            known_positions: [None, None, None, None, None],
            min_counts: HashMap::new(),
        };
        assert(app.known_positions@ =~= seq![None::<char>, None, None, None, None]);
        app
    }

    /// Handles a key press; returns whether the player asked to leave.
    pub fn handle_input(&mut self, key: Key) -> (leave: bool)
        requires
            !old(self).finished && key == Key::Enter && input_bytes(*old(self)) == 5 ==> can_submit(
                *old(self),
            ),
        ensures
            after_key(*old(self), key, leave, *final(self)),
    {
        if self.finished {
            return matches!(key, Key::Esc);
        }
        match key {
            Key::Esc => {
                return true;
            },
            Key::Enter => {
                if utf8_length_capped(self.current_input.as_str(), 5) == 5 {
                    self.submit_guess();
                } else {
                    self.message = String::from_str("请输入完整的五字母单词");
                }
            },
            Key::Backspace => {
                let _ = pop_char(&mut self.current_input);
                self.message = String::from_str("猜测一个五字母单词，按回车确认");
            },
            Key::Char(c) => {
                let c = to_ascii_upper(c);
                if ascii_letter(c) && utf8_length_capped(self.current_input.as_str(), 5) < 5 {
                    push_char(&mut self.current_input, c);
                    self.message = String::from_str("猜测一个五字母单词，按回车确认");
                }
            },
            Key::Other => {},
        }
        false
    }

    /// Scores the typed guess: see `after_submit`.
    pub fn submit_guess(&mut self)
        requires
            can_submit(*old(self)),
        ensures
            after_submit(*old(self), *final(self)),
    {
        let ghost s0 = *self;
        let guess = self.current_input.clone();
        if !word_listed(&self.acceptables_set, &guess) {
            self.message = String::from_str("单词不在词库中");
            return ;
        }
        if self.is_hard_mode && !is_valid_hard_mode(
            guess.as_str(),
            &self.known_positions,
            &self.min_counts,
        ) {
            self.message = String::from_str("困难模式：必须使用已知信息");
            return ;
        }
        let feedback = compute_feedback(guess.as_str(), self.answer.as_str());
        if self.is_hard_mode {
            update_hard_mode_constraints(
                guess.as_str(),
                feedback.as_str(),
                &mut self.known_positions,
                &mut self.min_counts,
            );
        }
        update_keyboard(guess.as_str(), feedback.as_str(), &mut self.keyboard);
        self.guesses.push(guess.clone());
        self.feedbacks.push(feedback);
        self.attempt = self.attempt + 1;
        if guess == self.answer {
            self.won = true;
            self.finished = true;
            let mut m = String::from_str("🎉 恭喜！你在第 ");
            let n = crate::text::decimal_string(self.attempt);
            m.append(n.as_str());
            m.append(" 次猜中了！按 ESC 退出");
            self.message = m;
        } else if self.attempt >= self.max_attempts {
            self.finished = true;
            let mut m = String::from_str("游戏结束！答案是 ");
            m.append(self.answer.as_str());
            m.append("。按 ESC 退出");
            self.message = m;
        } else {
            self.message = String::from_str("猜测一个五字母单词，按回车确认");
        }
        self.current_input = String::new();
        proof {
            let g = s0.current_input@;
            let f = feedback_of(g, s0.answer@);
            assert(views(s0.acceptables_set@).contains(g));
            assert(self.guesses@ == s0.guesses@.push(s0.current_input));
            assert(self.feedbacks@.drop_last() == s0.feedbacks@);
            assert(self.feedbacks@.last()@ == f);
            assert(self.keyboard@ == keyboard_after(s0.keyboard@, g, f));
            assert(self.attempt == s0.attempt + 1);
        }
    }
}

/// A consistent game: one recorded guess and one feedback per attempt, no
/// more attempts than allowed, and a game that is won or out of attempts is over.
pub open spec fn play_consistent(s: TuiApp) -> bool {
    &&& s.guesses@.len() == s.attempt
    &&& s.feedbacks@.len() == s.attempt
    &&& s.attempt <= s.max_attempts
    &&& s.attempt == s.max_attempts ==> s.finished
    &&& s.won ==> s.finished
}

/// Every key press keeps a game consistent: guesses, feedbacks and attempts
/// stay in step, attempts never exceed the limit, and a won game is over.
pub proof fn lemma_key_keeps_play_consistent(s: TuiApp, key: Key, leave: bool, t: TuiApp)
    requires
        play_consistent(s),
        after_key(s, key, leave, t),
    ensures
        play_consistent(t),
{
}

/// A finished game ignores every key; only Esc asks to leave.
pub proof fn lemma_finished_game_is_frozen(s: TuiApp, key: Key, leave: bool, t: TuiApp)
    requires
        s.finished,
        after_key(s, key, leave, t),
    ensures
        t == s,
        leave <==> key == Key::Esc,
{
}

} // verus!
