use std::collections::HashMap;
use vstd::prelude::*;
use vstd::std_specs::hash::{group_hash_axioms, spec_hash_map_iter};
use vstd::std_specs::iter::IteratorSpec;

use crate::status::{Status, status_rank, status_of_feedback};
use crate::text::{chars_of, string_from_chars};

verus! {

/// Letters are kept in maps under their Unicode code point.
pub open spec fn key_of(c: char) -> u32 {
    c as u32
}

/// Distinct letters have distinct keys.
pub proof fn lemma_key_of_injective(c: char, d: char)
    ensures
        key_of(c) == key_of(d) <==> c == d,
{
}

/// Number of positions among the first `n` where the guess misses and the
/// answer holds the letter with key `k`: the answer's letters still to be found.
pub open spec fn unmatched_in_answer(g: Seq<char>, a: Seq<char>, k: u32, n: int) -> nat
    decreases n,
{
    if n <= 0 {
        0
    } else {
        unmatched_in_answer(g, a, k, n - 1) + if g[n - 1] != a[n - 1] && key_of(a[n - 1]) == k {
            1nat
        } else {
            0nat
        }
    }
}

/// Number of positions among the first `n` where the guess misses and the
/// guess holds the letter with key `k`.
pub open spec fn unmatched_in_guess(g: Seq<char>, a: Seq<char>, k: u32, n: int) -> nat
    decreases n,
{
    if n <= 0 {
        0
    } else {
        unmatched_in_guess(g, a, k, n - 1) + if g[n - 1] != a[n - 1] && key_of(g[n - 1]) == k {
            1nat
        } else {
            0nat
        }
    }
}

/// The feedback at position `i`: `G` where the letters agree; otherwise `Y`
/// while earlier misses of the same letter have not used up the answer's
/// unmatched copies of it, and `R` after that.
pub open spec fn feedback_at(g: Seq<char>, a: Seq<char>, i: int) -> char {
    if g[i] == a[i] {
        'G'
    } else if unmatched_in_guess(g, a, key_of(g[i]), i) < unmatched_in_answer(
        g,
        a,
        key_of(g[i]),
        5,
    ) {
        'Y'
    } else {
        'R'
    }
}

/// The five feedback characters of a guess against an answer.
pub open spec fn feedback_of(g: Seq<char>, a: Seq<char>) -> Seq<char> {
    Seq::new(5, |i: int| feedback_at(g, a, i))
}

/// `G` at a matching position before `n`, `R` elsewhere.
pub open spec fn green_or_red(g: Seq<char>, a: Seq<char>, j: int, n: int) -> char {
    if j < n && g[j] == a[j] {
        'G'
    } else {
        'R'
    }
}

/// The count stored for a key, absent keys counting as zero.
pub open spec fn count_in(m: Map<u32, i32>, k: u32) -> int {
    if m.contains_key(k) {
        m[k] as int
    } else {
        0
    }
}

pub open spec fn nonneg(x: int) -> int {
    if x < 0 {
        0
    } else {
        x
    }
}

/// Feedback for a guess against the answer: `G` for a letter in the right
/// place, `Y` for a letter that the answer holds elsewhere (no more often than
/// the answer holds it beyond its matched places), `R` otherwise.
pub fn compute_feedback(guess: &str, answer: &str) -> (result: String)
    requires
        guess@.len() >= 5,
        answer@.len() >= 5,
    ensures
        result@ == feedback_of(guess@, answer@),
        forall|i: int| 0 <= i < 5 ==> (#[trigger] result@[i] == 'G' <==> guess@[i] == answer@[i]),
        forall|i: int|
            0 <= i < 5 && (forall|j: int| 0 <= j < 5 ==> answer@[j] != guess@[i]) ==> #[trigger] result@[i]
                == 'R',
{
    broadcast use group_hash_axioms;
    proof {
        lemma_feedback_meaning(guess@, answer@);
    }
    let g_chars = chars_of(guess);
    let a_chars = chars_of(answer);
    let ghost g = guess@;
    let ghost a = answer@;
    let mut result: Vec<char> = vec!['R', 'R', 'R', 'R', 'R'];
    let mut answer_count: HashMap<u32, i32> = HashMap::new();

    for i in 0..5
        invariant
            g_chars@ == g,
            a_chars@ == a,
            g.len() >= 5,
            a.len() >= 5,
            result@.len() == 5,
            forall|j: int| 0 <= j < 5 ==> result@[j] == green_or_red(g, a, j, i as int),
            forall|k: u32| #[trigger]
                count_in(answer_count@, k) == unmatched_in_answer(g, a, k, i as int),
            forall|k: u32| answer_count@.contains_key(k) ==> 0 <= #[trigger] answer_count@[k] <= i,
    {
        let ghost before = answer_count@;
        let ghost res_before = result@;
        if g_chars[i] == a_chars[i] {
            result.set(i, 'G');
        } else {
            let key = a_chars[i] as u32;
            let cur: i32 = match answer_count.get(&key) {
                Some(v) => *v,
                None => 0,
            };
            assert(cur == count_in(before, key));
            answer_count.insert(key, cur + 1);
        }
        assert forall|j: int| 0 <= j < 5 implies result@[j] == green_or_red(g, a, j, i + 1) by {
            if j != i {
                assert(result@[j] == res_before[j]);
            }
        }
        assert forall|k: u32| #[trigger]
            count_in(answer_count@, k) == unmatched_in_answer(g, a, k, i + 1) by {
            assert(count_in(before, k) == unmatched_in_answer(g, a, k, i as int));
        }
    }

    for i in 0..5
        invariant
            g_chars@ == g,
            a_chars@ == a,
            g.len() >= 5,
            a.len() >= 5,
            result@.len() == 5,
            forall|j: int| 0 <= j < i ==> result@[j] == feedback_at(g, a, j),
            forall|j: int| i <= j < 5 ==> result@[j] == green_or_red(g, a, j, 5),
            forall|k: u32| #[trigger]
                count_in(answer_count@, k) == nonneg(
                    unmatched_in_answer(g, a, k, 5) - unmatched_in_guess(g, a, k, i as int),
                ),
            forall|k: u32| answer_count@.contains_key(k) ==> 0 <= #[trigger] answer_count@[k] <= 5,
    {
        let ghost before = answer_count@;
        if result[i] != 'G' {
            let key = g_chars[i] as u32;
            let cur: i32 = match answer_count.get(&key) {
                Some(v) => *v,
                None => 0,
            };
            assert(cur == count_in(answer_count@, key));
            if cur > 0 {
                result.set(i, 'Y');
                answer_count.insert(key, cur - 1);
            }
        }
        assert forall|k: u32| #[trigger]
            count_in(answer_count@, k) == nonneg(
                unmatched_in_answer(g, a, k, 5) - unmatched_in_guess(g, a, k, i + 1),
            ) by {
            assert(count_in(before, k) == nonneg(
                unmatched_in_answer(g, a, k, 5) - unmatched_in_guess(g, a, k, i as int),
            ));
        }
    }
    assert(result@ == feedback_of(g, a));
    string_from_chars(result.as_slice())
}

/// The higher-ranked of two statuses, the first on a tie.
pub open spec fn upgraded(s: Status, t: Status) -> Status {
    if status_rank(t) > status_rank(s) {
        t
    } else {
        s
    }
}

/// The highest-ranked status that the first `n` feedback characters give to
/// the letter with key `k` (`Unknown` where the guess does not hold it).
pub open spec fn best_status(g: Seq<char>, f: Seq<char>, k: u32, n: int) -> Status
    decreases n,
{
    if n <= 0 {
        Status::Unknown
    } else if key_of(g[n - 1]) == k {
        upgraded(best_status(g, f, k, n - 1), status_of_feedback(f[n - 1]))
    } else {
        best_status(g, f, k, n - 1)
    }
}

/// The keyboard after a guess: each letter already on it takes the
/// higher-ranked of its status and the best status the guess gave it.
pub open spec fn keyboard_after(kb: Map<u32, Status>, g: Seq<char>, f: Seq<char>) -> Map<u32, Status> {
    Map::new(|k: u32| kb.contains_key(k), |k: u32| upgraded(kb[k], best_status(g, f, k, 5)))
}

/// Raises the status of each letter of the guess on the keyboard to what the
/// feedback shows, never lowering it; letters not on the keyboard are ignored.
pub fn update_keyboard(guess: &str, feedback: &str, keyboard: &mut HashMap<u32, Status>)
    requires
        guess@.len() >= 5,
        feedback@.len() >= 5,
    ensures
        final(keyboard)@ == keyboard_after(old(keyboard)@, guess@, feedback@),
        final(keyboard)@.dom() == old(keyboard)@.dom(),
        forall|k: u32|
            old(keyboard)@.contains_key(k) ==> status_rank(#[trigger] final(keyboard)@[k]) >= status_rank(
                old(keyboard)@[k],
            ),
        forall|i: int|
            0 <= i < 5 && old(keyboard)@.contains_key(key_of(guess@[i])) ==> status_rank(
                #[trigger] final(keyboard)@[key_of(guess@[i])],
            ) >= status_rank(status_of_feedback(feedback@[i])),
{
    broadcast use group_hash_axioms;
    proof {
        lemma_keyboard_takes_best(keyboard@, guess@, feedback@);
    }
    let g_chars = chars_of(guess);
    let f_chars = chars_of(feedback);
    let ghost g = guess@;
    let ghost f = feedback@;
    let ghost kb0 = keyboard@;

    for i in 0..5
        invariant
            g_chars@ == g,
            f_chars@ == f,
            g.len() >= 5,
            f.len() >= 5,
            keyboard@.dom() == kb0.dom(),
            forall|k: u32| #[trigger] keyboard@.contains_key(k) ==> keyboard@[k] == upgraded(
                kb0[k],
                best_status(g, f, k, i as int),
            ),
    {
        let st = Status::from_feedback(f_chars[i]);
        let key = g_chars[i] as u32;
        let ghost before = keyboard@;
        let current: Option<Status> = match keyboard.get(&key) {
            Some(s) => Some(*s),
            None => None,
        };
        if let Some(cur) = current {
            if st.priority() > cur.priority() {
                keyboard.insert(key, st);
            }
        }
        assert forall|k: u32| #[trigger] keyboard@.contains_key(k) implies keyboard@[k] == upgraded(
            kb0[k],
            best_status(g, f, k, i + 1),
        ) by {
            assert(before[k] == upgraded(kb0[k], best_status(g, f, k, i as int)));
        }
    }
    assert(keyboard@ == keyboard_after(kb0, g, f));
}

/// Number of positions before `n` where the word holds the letter with key `k`.
pub open spec fn occurrences(w: Seq<char>, k: u32, n: int) -> nat
    decreases n,
{
    if n <= 0 {
        0
    } else {
        occurrences(w, k, n - 1) + if key_of(w[n - 1]) == k {
            1nat
        } else {
            0nat
        }
    }
}

/// Every letter fixed in place by earlier feedback stands at its place in the guess.
pub open spec fn keeps_known_positions(g: Seq<char>, known: Seq<Option<char>>) -> bool {
    forall|i: int| 0 <= i < 5 && (#[trigger] known[i]) is Some ==> g[i] == known[i]->0
}

/// Every letter known to be in the answer occurs in the guess at least as
/// often as it is known to occur.
pub open spec fn meets_min_counts(g: Seq<char>, min_counts: Map<u32, usize>) -> bool {
    forall|k: u32| #[trigger]
        min_counts.contains_key(k) ==> occurrences(g, k, g.len() as int) >= min_counts[k]
}

/// A guess that hard mode accepts.
pub open spec fn hard_mode_ok(g: Seq<char>, known: Seq<Option<char>>, min_counts: Map<
    u32,
    usize,
>) -> bool {
    keeps_known_positions(g, known) && meets_min_counts(g, min_counts)
}

/// How often the word holds the letter with key `k`.
pub fn count_letter(chars: &Vec<char>, k: u32) -> (n: usize)
    ensures
        n == occurrences(chars@, k, chars@.len() as int),
{
    let mut n: usize = 0;
    let len = chars.len();
    for i in 0..len
        invariant
            len == chars@.len(),
            n == occurrences(chars@, k, i as int),
            n <= i,
    {
        if chars[i] as u32 == k {
            n = n + 1;
        }
    }
    n
}

/// Scanning the fixed places in order never reaches one beyond the end of the
/// guess before finding a fixed letter that the guess misses.
pub open spec fn fixed_scan_in_guess(g: Seq<char>, known: Seq<Option<char>>) -> bool {
    forall|i: int|
        0 <= i < 5 && (#[trigger] known[i]) is Some && i >= g.len() ==> exists|j: int|
            0 <= j < i && known[j] is Some && j < g.len() && g[j] != known[j]->0
}

/// Whether a guess uses everything that hard mode demands: the letters fixed
/// in place, and each known letter at least as often as it is known to occur.
pub fn is_valid_hard_mode(
    guess: &str,
    known_positions: &[Option<char>; 5],
    min_counts: &HashMap<u32, usize>,
) -> (valid: bool)
    requires
        fixed_scan_in_guess(guess@, known_positions@),
    ensures
        valid == hard_mode_ok(guess@, known_positions@, min_counts@),
        valid ==> forall|i: int|
            0 <= i < 5 && (#[trigger] known_positions@[i]) is Some ==> i < guess@.len() && guess@[i]
                == known_positions@[i]->0,
{
    broadcast use group_hash_axioms;
    proof {
        lemma_hard_mode_meaning(guess@, known_positions@, min_counts@);
    }
    let g_chars = chars_of(guess);
    let ghost g = guess@;

    for i in 0..5
        invariant
            g_chars@ == g,
            g == guess@,
            fixed_scan_in_guess(g, known_positions@),
            forall|j: int|
                0 <= j < i && (#[trigger] known_positions@[j]) is Some ==> j < g.len() && g[j]
                    == known_positions@[j]->0,
    {
        if let Some(c) = known_positions[i] {
            assert(known_positions@[i as int] is Some);
            assert(i < g.len()) by {
                if i >= g.len() {
                    let j = choose|j: int|
                        0 <= j < i && known_positions@[j] is Some && j < g.len() && g[j]
                            != known_positions@[j]->0;
                    assert(known_positions@[j] is Some);
                }
            }
            if g_chars[i] != c {
                assert(known_positions@[i as int] == Some(c));
                return false;
            }
        }
    }

    for entry in it: min_counts.iter()
        invariant
            g_chars@ == g,
            g == guess@,
            keeps_known_positions(g, known_positions@),
            it.seq() == spec_hash_map_iter(min_counts).remaining(),
            forall|j: int|
                0 <= j < it.index() ==> occurrences(g, *(#[trigger] it.seq()[j]).0, g.len() as int)
                    >= *it.seq()[j].1,
    {
        let (k, v) = entry;
        let n = count_letter(&g_chars, *k);
        if n < *v {
            proof {
                let j = it.index() as int;
                assert(entry == it.seq()[j]);
                assert(min_counts@.contains_key(*it.seq()[j].0));
                assert(min_counts@[*k] == *v);
            }
            return false;
        }
    }
    true
}

/// Whether a feedback character confirms its letter is in the answer.
pub open spec fn confirms(c: char) -> bool {
    c == 'G' || c == 'Y'
}

/// Number of positions before `n` whose feedback confirms the letter with key `k`.
pub open spec fn confirmed(g: Seq<char>, f: Seq<char>, k: u32, n: int) -> nat
    decreases n,
{
    if n <= 0 {
        0
    } else {
        confirmed(g, f, k, n - 1) + if confirms(f[n - 1]) && key_of(g[n - 1]) == k {
            1nat
        } else {
            0nat
        }
    }
}

/// The known positions after a guess: each green place is fixed to the guessed letter.
pub open spec fn known_after(known: Seq<Option<char>>, g: Seq<char>, f: Seq<char>) -> Seq<
    Option<char>,
> {
    Seq::new(
        5,
        |i: int|
            if f[i] == 'G' {
                Some(g[i])
            } else {
                known[i]
            },
    )
}

/// The count recorded for a key, absent keys counting as zero.
pub open spec fn min_count_of(m: Map<u32, usize>, k: u32) -> nat {
    if m.contains_key(k) {
        m[k] as nat
    } else {
        0
    }
}

pub open spec fn max_nat(x: nat, y: nat) -> nat {
    if x >= y {
        x
    } else {
        y
    }
}

/// The minimum counts after a guess: each letter that the feedback confirms
/// is known to occur at least as often as it was confirmed in this guess.
pub open spec fn min_counts_after(m: Map<u32, usize>, g: Seq<char>, f: Seq<char>) -> Map<u32, usize> {
    Map::new(
        |k: u32| m.contains_key(k) || confirmed(g, f, k, 5) > 0,
        |k: u32|
            if confirmed(g, f, k, 5) > 0 {
                max_nat(min_count_of(m, k), confirmed(g, f, k, 5)) as usize
            } else {
                m[k]
            },
    )
}

/// How many of the first five positions confirm the letter with key `k`.
fn count_confirmed(g_chars: &Vec<char>, f_chars: &Vec<char>, k: u32) -> (n: usize)
    requires
        g_chars@.len() >= 5,
        f_chars@.len() >= 5,
    ensures
        n == confirmed(g_chars@, f_chars@, k, 5),
        n <= 5,
{
    let mut n: usize = 0;
    for i in 0..5
        invariant
            g_chars@.len() >= 5,
            f_chars@.len() >= 5,
            n == confirmed(g_chars@, f_chars@, k, i as int),
            n <= i,
    {
        if (f_chars[i] == 'G' || f_chars[i] == 'Y') && g_chars[i] as u32 == k {
            n = n + 1;
        }
    }
    n
}

/// Records what a guess's feedback reveals for hard mode: green letters are
/// fixed in place, and each confirmed letter must occur at least as often as
/// this guess confirmed it.
pub fn update_hard_mode_constraints(
    guess: &str,
    feedback: &str,
    known_positions: &mut [Option<char>; 5],
    min_counts: &mut HashMap<u32, usize>,
)
    requires
        guess@.len() >= 5,
        feedback@.len() >= 5,
    ensures
        final(known_positions)@ == known_after(old(known_positions)@, guess@, feedback@),
        final(min_counts)@ == min_counts_after(old(min_counts)@, guess@, feedback@),
        forall|i: int|
            0 <= i < 5 && feedback@[i] == 'G' ==> #[trigger] final(known_positions)@[i] == Some(
                guess@[i],
            ),
        forall|i: int|
            0 <= i < 5 && feedback@[i] != 'G' ==> #[trigger] final(known_positions)@[i] == old(
                known_positions,
            )@[i],
{
    broadcast use group_hash_axioms;
    proof {
        lemma_constraints_meaning(known_positions@, min_counts@, guess@, feedback@);
    }
    let g_chars = chars_of(guess);
    let f_chars = chars_of(feedback);
    let ghost g = guess@;
    let ghost f = feedback@;
    let ghost kp0 = known_positions@;
    let ghost mc0 = min_counts@;

    for i in 0..5
        invariant
            g_chars@ == g,
            f_chars@ == f,
            g.len() >= 5,
            f.len() >= 5,
            known_positions@.len() == 5,
            forall|j: int|
                0 <= j < 5 ==> #[trigger] known_positions@[j] == if j < i && f[j] == 'G' {
                    Some(g[j])
                } else {
                    kp0[j]
                },
    {
        if f_chars[i] == 'G' {
            known_positions[i] = Some(g_chars[i]);
        }
    }
    assert(known_positions@ == known_after(kp0, g, f));

    for i in 0..5
        invariant
            g_chars@ == g,
            f_chars@ == f,
            g.len() >= 5,
            f.len() >= 5,
            forall|k: u32|
                #![trigger min_counts@.contains_key(k)]
                #![trigger confirmed(g, f, k, i as int)]
                confirmed(g, f, k, i as int) > 0 ==> min_counts@.contains_key(k)
                    && min_counts@[k] == max_nat(min_count_of(mc0, k), confirmed(g, f, k, 5)),
            forall|k: u32|
                #![trigger min_counts@.contains_key(k)]
                #![trigger confirmed(g, f, k, i as int)]
                confirmed(g, f, k, i as int) == 0 ==> (min_counts@.contains_key(k)
                    == mc0.contains_key(k)) && (mc0.contains_key(k) ==> min_counts@[k] == mc0[k]),
    {
        let ghost before = min_counts@;
        if f_chars[i] == 'G' || f_chars[i] == 'Y' {
            let key = g_chars[i] as u32;
            let c = count_confirmed(&g_chars, &f_chars, key);
            let cur: usize = match min_counts.get(&key) {
                Some(v) => *v,
                None => 0,
            };
            let new_count = if c > cur {
                c
            } else {
                cur
            };
            proof {
                assert(cur == min_count_of(before, key));
                if confirmed(g, f, key, i as int) > 0 {
                    assert(before[key] == max_nat(min_count_of(mc0, key), confirmed(g, f, key, 5)));
                } else {
                    assert(min_count_of(before, key) == min_count_of(mc0, key));
                }
                assert(new_count == max_nat(min_count_of(mc0, key), confirmed(g, f, key, 5)));
            }
            min_counts.insert(key, new_count);
        }
        assert forall|k: u32| #[trigger] confirmed(g, f, k, i + 1) >= 0 implies
            (confirmed(g, f, k, i + 1) > 0 ==> min_counts@.contains_key(k)
                && min_counts@[k] == max_nat(min_count_of(mc0, k), confirmed(g, f, k, 5)))
            && (confirmed(g, f, k, i + 1) == 0 ==> (min_counts@.contains_key(k)
                == mc0.contains_key(k)) && (mc0.contains_key(k) ==> min_counts@[k] == mc0[k])) by {
            assert(confirmed(g, f, k, i + 1) == confirmed(g, f, k, i as int) + if confirms(f[i as int])
                && key_of(g[i as int]) == k {
                1nat
            } else {
                0nat
            });
            if !(confirms(f[i as int]) && key_of(g[i as int]) == k) {
                assert(min_counts@.contains_key(k) == before.contains_key(k));
                if before.contains_key(k) {
                    assert(min_counts@[k] == before[k]);
                }
            }
        }
    }
    assert(min_counts@ == min_counts_after(mc0, g, f));
}

/// Five `G`s: the feedback of a guess that matches the answer.
pub open spec fn all_green() -> Seq<char> {
    Seq::new(5, |i: int| 'G')
}

/// A guess earns five greens exactly when its first five letters are the answer's.
pub proof fn lemma_all_green_iff_match(g: Seq<char>, a: Seq<char>)
    requires
        g.len() >= 5,
        a.len() >= 5,
    ensures
        feedback_of(g, a) == all_green() <==> g.take(5) == a.take(5),
{
    if feedback_of(g, a) == all_green() {
        assert forall|i: int| 0 <= i < 5 implies g.take(5)[i] == a.take(5)[i] by {
            assert(feedback_of(g, a)[i] == 'G');
        }
        assert(g.take(5) =~= a.take(5));
    }
    if g.take(5) == a.take(5) {
        assert forall|i: int| 0 <= i < 5 implies feedback_of(g, a)[i] == all_green()[i] by {
            assert(g.take(5)[i] == a.take(5)[i]);
        }
        assert(feedback_of(g, a) =~= all_green());
    }
}

/// Feedback has five characters, each `G`, `Y` or `R`.
pub proof fn lemma_feedback_shape(g: Seq<char>, a: Seq<char>)
    ensures
        feedback_of(g, a).len() == 5,
        forall|i: int|
            0 <= i < 5 ==> #[trigger] feedback_of(g, a)[i] == 'G' || feedback_of(g, a)[i] == 'Y'
                || feedback_of(g, a)[i] == 'R',
{
}

/// A keyboard update never lowers the status of a letter and never adds or
/// removes a letter.
pub proof fn lemma_keyboard_never_downgrades(kb: Map<u32, Status>, g: Seq<char>, f: Seq<char>)
    ensures
        keyboard_after(kb, g, f).dom() == kb.dom(),
        forall|k: u32|
            kb.contains_key(k) ==> status_rank(#[trigger] keyboard_after(kb, g, f)[k])
                >= status_rank(kb[k]),
{
    assert(keyboard_after(kb, g, f).dom() =~= kb.dom());
}

/// Applying the same guess and feedback to the keyboard twice changes nothing
/// the second time.
pub proof fn lemma_keyboard_update_idempotent(kb: Map<u32, Status>, g: Seq<char>, f: Seq<char>)
    ensures
        keyboard_after(keyboard_after(kb, g, f), g, f) == keyboard_after(kb, g, f),
{
    let once = keyboard_after(kb, g, f);
    assert(keyboard_after(once, g, f) =~= once);
}

/// Number of positions before `n` where the guess matches the answer on the letter with key `k`.
pub open spec fn matched(g: Seq<char>, a: Seq<char>, k: u32, n: int) -> nat
    decreases n,
{
    if n <= 0 {
        0
    } else {
        matched(g, a, k, n - 1) + if g[n - 1] == a[n - 1] && key_of(a[n - 1]) == k {
            1nat
        } else {
            0nat
        }
    }
}

pub open spec fn min_nat(x: nat, y: nat) -> nat {
    if x <= y {
        x
    } else {
        y
    }
}

/// The feedback confirms a letter once per match, plus once per miss while
/// the answer's unmatched copies of it last.
proof fn lemma_confirmed_split(g: Seq<char>, a: Seq<char>, k: u32, n: int)
    requires
        g.len() >= 5,
        a.len() >= 5,
        0 <= n <= 5,
    ensures
        confirmed(g, feedback_of(g, a), k, n) == matched(g, a, k, n) + min_nat(
            unmatched_in_guess(g, a, k, n),
            unmatched_in_answer(g, a, k, 5),
        ),
    decreases n,
{
    if n > 0 {
        lemma_confirmed_split(g, a, k, n - 1);
    }
}

/// Matched and unmatched copies of a letter together are all its copies in
/// the answer's first `n` places.
proof fn lemma_matched_plus_unmatched(g: Seq<char>, a: Seq<char>, k: u32, n: int)
    requires
        0 <= n <= a.len(),
        n <= g.len(),
    ensures
        matched(g, a, k, n) + unmatched_in_answer(g, a, k, n) == occurrences(a, k, n),
    decreases n,
{
    if n > 0 {
        lemma_matched_plus_unmatched(g, a, k, n - 1);
    }
}

proof fn lemma_occurrences_monotone(w: Seq<char>, k: u32, m: int, n: int)
    requires
        0 <= m <= n,
    ensures
        occurrences(w, k, m) <= occurrences(w, k, n),
    decreases n - m,
{
    if m < n {
        lemma_occurrences_monotone(w, k, m, n - 1);
    }
}

/// The feedback never confirms a letter more often than the answer holds it.
pub proof fn lemma_confirmed_within_answer(g: Seq<char>, a: Seq<char>, k: u32)
    requires
        g.len() >= 5,
        a.len() >= 5,
    ensures
        confirmed(g, feedback_of(g, a), k, 5) <= occurrences(a, k, a.len() as int),
{
    lemma_confirmed_split(g, a, k, 5);
    lemma_matched_plus_unmatched(g, a, k, 5);
    lemma_occurrences_monotone(a, k, 5, a.len() as int);
}

/// The answer itself always meets the hard-mode constraints: if it met them
/// before a guess, it still meets them after they are updated with that
/// guess's feedback against it.
pub proof fn lemma_answer_stays_valid_in_hard_mode(
    g: Seq<char>,
    a: Seq<char>,
    known: Seq<Option<char>>,
    min_counts: Map<u32, usize>,
)
    requires
        g.len() >= 5,
        a.len() >= 5,
        known.len() == 5,
        hard_mode_ok(a, known, min_counts),
    ensures
        hard_mode_ok(
            a,
            known_after(known, g, feedback_of(g, a)),
            min_counts_after(min_counts, g, feedback_of(g, a)),
        ),
{
    let f = feedback_of(g, a);
    let kn = known_after(known, g, f);
    let mc = min_counts_after(min_counts, g, f);
    assert forall|i: int| 0 <= i < 5 && (#[trigger] kn[i]) is Some implies a[i] == kn[i]->0 by {
        if f[i] != 'G' {
            assert(known[i] is Some);
        }
    }
    assert forall|k: u32| #[trigger] mc.contains_key(k) implies occurrences(
        a,
        k,
        a.len() as int,
    ) >= mc[k] by {
        lemma_confirmed_within_answer(g, a, k);
        if min_counts.contains_key(k) {
            assert(occurrences(a, k, a.len() as int) >= min_counts[k]);
        }
    }
}

proof fn lemma_confirmed_bound(g: Seq<char>, f: Seq<char>, k: u32, n: int)
    requires
        0 <= n,
    ensures
        confirmed(g, f, k, n) <= n,
    decreases n,
{
    if n > 0 {
        lemma_confirmed_bound(g, f, k, n - 1);
    }
}

/// Hard-mode constraints only grow: a known position stays fixed unless a
/// new green fixes it, and no minimum count is ever lowered or dropped.
pub proof fn lemma_constraints_only_grow(
    known: Seq<Option<char>>,
    m: Map<u32, usize>,
    g: Seq<char>,
    f: Seq<char>,
)
    requires
        known.len() == 5,
    ensures
        forall|i: int|
            0 <= i < 5 && (#[trigger] known_after(known, g, f)[i]) is None ==> known[i] is None,
        forall|k: u32| #[trigger]
            m.contains_key(k) ==> min_counts_after(m, g, f).contains_key(k) && min_counts_after(
                m,
                g,
                f,
            )[k] >= m[k],
{
    assert forall|k: u32| #[trigger] m.contains_key(k) implies min_counts_after(
        m,
        g,
        f,
    ).contains_key(k) && min_counts_after(m, g, f)[k] >= m[k] by {
        lemma_confirmed_bound(g, f, k, 5);
    }
}

/// A fresh keyboard: the letters `A` to `Z`, none tried yet.
pub open spec fn fresh_keyboard() -> Map<u32, Status> {
    Map::new(|k: u32| 0x41 <= k <= 0x5a, |k: u32| Status::Unknown)
}

/// The keyboard at the start of a game: every letter `A` to `Z` not yet tried.
pub fn new_keyboard() -> (keyboard: HashMap<u32, Status>)
    ensures
        keyboard@ == fresh_keyboard(),
{
    broadcast use group_hash_axioms;
    let mut keyboard: HashMap<u32, Status> = HashMap::new();
    for k in 0x41u32..0x5bu32
        invariant
            keyboard@ == Map::new(|j: u32| 0x41 <= j < k, |j: u32| Status::Unknown),
    {
        keyboard.insert(k, Status::Unknown);
        assert(keyboard@ =~= Map::new(|j: u32| 0x41 <= j < k + 1, |j: u32| Status::Unknown));
    }
    assert(keyboard@ =~= fresh_keyboard());
    keyboard
}


proof fn lemma_unmatched_in_answer_witness(g: Seq<char>, a: Seq<char>, k: u32, n: int)
    requires
        unmatched_in_answer(g, a, k, n) > 0,
    ensures
        exists|j: int| 0 <= j < n && g[j] != a[j] && key_of(a[j]) == k,
    decreases n,
{
    if n > 0 {
        if !(g[n - 1] != a[n - 1] && key_of(a[n - 1]) == k) {
            lemma_unmatched_in_answer_witness(g, a, k, n - 1);
            let j = choose|j: int| 0 <= j < n - 1 && g[j] != a[j] && key_of(a[j]) == k;
            assert(0 <= j < n && g[j] != a[j] && key_of(a[j]) == k);
        }
    }
}

/// What feedback means: a place is green exactly when guess and answer agree
/// there; a yellow letter occurs in the answer at a place the guess misses;
/// a letter the answer's five places do not hold is red.
pub proof fn lemma_feedback_meaning(g: Seq<char>, a: Seq<char>)
    requires
        g.len() >= 5,
        a.len() >= 5,
    ensures
        feedback_of(g, a).len() == 5,
        forall|i: int| 0 <= i < 5 ==> (#[trigger] feedback_of(g, a)[i] == 'G' <==> g[i] == a[i]),
        forall|i: int|
            0 <= i < 5 && #[trigger] feedback_of(g, a)[i] == 'Y' ==> exists|j: int|
                0 <= j < 5 && g[j] != a[j] && a[j] == g[i],
        forall|i: int|
            0 <= i < 5 && (forall|j: int| 0 <= j < 5 ==> a[j] != g[i]) ==> #[trigger] feedback_of(
                g,
                a,
            )[i] == 'R',
{
    assert forall|i: int| 0 <= i < 5 && #[trigger] feedback_of(g, a)[i] == 'Y' implies exists|j: int|
        0 <= j < 5 && g[j] != a[j] && a[j] == g[i] by {
        lemma_unmatched_in_answer_witness(g, a, key_of(g[i]), 5);
        let j = choose|j: int| 0 <= j < 5 && g[j] != a[j] && key_of(a[j]) == key_of(g[i]);
        lemma_key_of_injective(a[j], g[i]);
    }
    assert forall|i: int|
        0 <= i < 5 && (forall|j: int| 0 <= j < 5 ==> a[j] != g[i]) implies #[trigger] feedback_of(
        g,
        a,
    )[i] == 'R' by {
        if feedback_of(g, a)[i] != 'R' {
            if g[i] != a[i] {
                lemma_unmatched_in_answer_witness(g, a, key_of(g[i]), 5);
                let j = choose|j: int| 0 <= j < 5 && g[j] != a[j] && key_of(a[j]) == key_of(g[i]);
                lemma_key_of_injective(a[j], g[i]);
                assert(a[j] != g[i]);
            } else {
                assert(a[i] != g[i]);
            }
        }
    }
}

proof fn lemma_best_status(g: Seq<char>, f: Seq<char>, k: u32, n: int)
    requires
        0 <= n <= g.len(),
        n <= f.len(),
    ensures
        forall|i: int|
            0 <= i < n && key_of(g[i]) == k ==> status_rank(best_status(g, f, k, n)) >= status_rank(
                #[trigger] status_of_feedback(f[i]),
            ),
        best_status(g, f, k, n) == Status::Unknown || exists|i: int|
            0 <= i < n && key_of(g[i]) == k && best_status(g, f, k, n) == status_of_feedback(f[i]),
    decreases n,
{
    if n > 0 {
        lemma_best_status(g, f, k, n - 1);
        if key_of(g[n - 1]) == k && best_status(g, f, k, n) != best_status(g, f, k, n - 1) {
            assert(best_status(g, f, k, n) == status_of_feedback(f[n - 1]));
        }
    }
}

/// What a keyboard update does: the same letters stay on the keyboard; no
/// letter's status drops; each letter of the guess that is on the keyboard
/// ends at least as high as every status its feedback gives it (green where
/// any of its places is green); and each letter keeps its status or takes one
/// that the feedback gave it.
pub proof fn lemma_keyboard_takes_best(kb: Map<u32, Status>, g: Seq<char>, f: Seq<char>)
    requires
        g.len() >= 5,
        f.len() >= 5,
    ensures
        keyboard_after(kb, g, f).dom() == kb.dom(),
        forall|k: u32|
            kb.contains_key(k) ==> status_rank(#[trigger] keyboard_after(kb, g, f)[k]) >= status_rank(
                kb[k],
            ),
        forall|i: int|
            0 <= i < 5 && kb.contains_key(key_of(g[i])) ==> status_rank(
                #[trigger] keyboard_after(kb, g, f)[key_of(g[i])],
            ) >= status_rank(status_of_feedback(f[i])),
        forall|k: u32|
            kb.contains_key(k) ==> #[trigger] keyboard_after(kb, g, f)[k] == kb[k] || exists|i: int|
                0 <= i < 5 && key_of(g[i]) == k && keyboard_after(kb, g, f)[k]
                    == status_of_feedback(f[i]),
{
    assert(keyboard_after(kb, g, f).dom() =~= kb.dom());
    assert forall|i: int| 0 <= i < 5 && kb.contains_key(key_of(g[i])) implies status_rank(
        #[trigger] keyboard_after(kb, g, f)[key_of(g[i])],
    ) >= status_rank(status_of_feedback(f[i])) by {
        lemma_best_status(g, f, key_of(g[i]), 5);
    }
    assert forall|k: u32| kb.contains_key(k) implies #[trigger] keyboard_after(kb, g, f)[k] == kb[k]
        || exists|i: int|
        0 <= i < 5 && key_of(g[i]) == k && keyboard_after(kb, g, f)[k] == status_of_feedback(
            f[i],
        ) by {
        lemma_best_status(g, f, k, 5);
    }
}

/// What hard mode accepts, for a guess whose fixed places can be scanned: the
/// guess holds every fixed letter at its place, and every letter with a
/// minimum count at least that often.
pub proof fn lemma_hard_mode_meaning(g: Seq<char>, known: Seq<Option<char>>, m: Map<u32, usize>)
    requires
        fixed_scan_in_guess(g, known),
    ensures
        hard_mode_ok(g, known, m) <==> (forall|i: int|
            0 <= i < 5 && (#[trigger] known[i]) is Some ==> i < g.len() && g[i] == known[i]->0) && (
        forall|k: u32| #[trigger] m.contains_key(k) ==> occurrences(g, k, g.len() as int) >= m[k]),
{
    if hard_mode_ok(g, known, m) {
        assert forall|i: int| 0 <= i < 5 && (#[trigger] known[i]) is Some implies i < g.len()
            && g[i] == known[i]->0 by {
            if i >= g.len() {
                let j = choose|j: int|
                    0 <= j < i && known[j] is Some && j < g.len() && g[j] != known[j]->0;
                assert(known[j] is Some);
            }
        }
    }
}

proof fn lemma_confirmed_witness(g: Seq<char>, f: Seq<char>, k: u32, n: int)
    ensures
        confirmed(g, f, k, n) > 0 <==> exists|i: int|
            0 <= i < n && (f[i] == 'G' || f[i] == 'Y') && key_of(g[i]) == k,
    decreases n,
{
    if n > 0 {
        lemma_confirmed_witness(g, f, k, n - 1);
        if confirmed(g, f, k, n - 1) > 0 {
            let i = choose|i: int| 0 <= i < n - 1 && (f[i] == 'G' || f[i] == 'Y') && key_of(g[i]) == k;
            assert(0 <= i < n);
        }
        if exists|i: int| 0 <= i < n && (f[i] == 'G' || f[i] == 'Y') && key_of(g[i]) == k {
            let i = choose|i: int| 0 <= i < n && (f[i] == 'G' || f[i] == 'Y') && key_of(g[i]) == k;
            if i < n - 1 {
                assert(exists|t: int| 0 <= t < n - 1 && (f[t] == 'G' || f[t] == 'Y') && key_of(g[t]) == k);
            }
        }
    }
}

/// What recording a guess's feedback does in hard mode: each green place is
/// fixed to the guessed letter and no other place changes; each letter marked
/// green or yellow gets a minimum count of at least one and at least its old
/// count; no old minimum count drops; and only such letters are added.
pub proof fn lemma_constraints_meaning(
    known: Seq<Option<char>>,
    m: Map<u32, usize>,
    g: Seq<char>,
    f: Seq<char>,
)
    requires
        known.len() == 5,
        g.len() >= 5,
        f.len() >= 5,
    ensures
        known_after(known, g, f).len() == 5,
        forall|i: int| 0 <= i < 5 && f[i] == 'G' ==> #[trigger] known_after(known, g, f)[i] == Some(g[i]),
        forall|i: int| 0 <= i < 5 && f[i] != 'G' ==> #[trigger] known_after(known, g, f)[i] == known[i],
        forall|i: int|
            0 <= i < 5 && (f[i] == 'G' || f[i] == 'Y') ==> #[trigger] min_counts_after(m, g, f).contains_key(
                key_of(g[i]),
            ) && min_counts_after(m, g, f)[key_of(g[i])] >= 1 && min_counts_after(m, g, f)[key_of(
                g[i],
            )] >= min_count_of(m, key_of(g[i])),
        forall|k: u32|
            #[trigger] m.contains_key(k) ==> min_counts_after(m, g, f).contains_key(k)
                && min_counts_after(m, g, f)[k] >= m[k],
        forall|k: u32|
            #[trigger] min_counts_after(m, g, f).contains_key(k) ==> m.contains_key(k) || exists|i: int|
                0 <= i < 5 && (f[i] == 'G' || f[i] == 'Y') && key_of(g[i]) == k,
{
    assert forall|i: int|
        0 <= i < 5 && (f[i] == 'G' || f[i] == 'Y') implies #[trigger] min_counts_after(m, g, f).contains_key(
        key_of(g[i]),
    ) && min_counts_after(m, g, f)[key_of(g[i])] >= 1 && min_counts_after(m, g, f)[key_of(g[i])]
        >= min_count_of(m, key_of(g[i])) by {
        lemma_confirmed_witness(g, f, key_of(g[i]), 5);
        lemma_confirmed_bound(g, f, key_of(g[i]), 5);
    }
    assert forall|k: u32| #[trigger] m.contains_key(k) implies min_counts_after(m, g, f).contains_key(k)
        && min_counts_after(m, g, f)[k] >= m[k] by {
        lemma_confirmed_bound(g, f, k, 5);
    }
    assert forall|k: u32| #[trigger] min_counts_after(m, g, f).contains_key(k) implies m.contains_key(k)
        || exists|i: int| 0 <= i < 5 && (f[i] == 'G' || f[i] == 'Y') && key_of(g[i]) == k by {
        lemma_confirmed_witness(g, f, k, 5);
    }
}

} // verus!
