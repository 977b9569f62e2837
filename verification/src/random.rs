use rand::rngs::StdRng;
use rand::seq::SliceRandom;
use rand::SeedableRng;
use std::collections::VecDeque;
use vstd::prelude::*;

use crate::order::views;

verus! {

broadcast use vstd::seq_lib::group_to_multiset_ensures;

/// The order in which `SliceRandom::shuffle` leaves words when driven by a
/// `StdRng` made with `StdRng::seed_from_u64(seed)`.
pub uninterp spec fn seeded_order(seed: u64, words: Seq<Seq<char>>) -> Seq<Seq<char>>;

/// Shuffles the words with a generator seeded by `seed`.
/// Calls `StdRng::seed_from_u64` (a fixed PCG32 expansion of the seed into a
/// ChaCha12 key) and `SliceRandom::shuffle` (a Fisher-Yates shuffle, which
/// only swaps elements and draws from that generator). The result is therefore
/// the same words, each as often, in an order fixed by the seed and the words:
/// the contract names that order.
#[verifier::external_body]
fn seeded_shuffle(words: &mut Vec<String>, seed: u64)
    ensures
        final(words)@.to_multiset() == old(words)@.to_multiset(),
        views(final(words)@) == seeded_order(seed, views(old(words)@)),
{
    let mut rng = StdRng::seed_from_u64(seed);
    words.as_mut_slice().shuffle(&mut rng);
}

/// The random mode's queue of answers, with the seed and day it started from.
pub struct RandomModeState {
    pub shuffled_words: VecDeque<String>,
    pub seed: u64,
    pub initial_day: u32,
    pub current_index: u32,
}

/// Random mode cannot start: every word was played, or the day lies beyond the words.
#[derive(Debug, Clone, Copy, PartialEq, Eq)]
pub struct AllWordsPlayed;

/// Every final word is among the played answers.
pub open spec fn all_played(finals: Seq<Seq<char>>, played: Seq<Seq<char>>) -> bool {
    forall|i: int| 0 <= i < finals.len() ==> played.contains(#[trigger] finals[i])
}

/// Whether the word is among the played answers.
fn was_played(played: &Vec<String>, w: &String) -> (r: bool)
    ensures
        r == views(played@).contains(w@),
{
    crate::tui::word_listed(played, w)
}

/// Starts random mode from an already shuffled order of the final words:
/// refused when every final word was played, or when fewer than `day - 1`
/// words are there to skip; otherwise the queue starts with the word of the
/// given day.
pub fn random_mode_from_order(
    finals: &Vec<String>,
    played_answers: &Vec<String>,
    order: Vec<String>,
    seed: u64,
    day: u32,
) -> (r: Result<RandomModeState, AllWordsPlayed>)
    requires
        day >= 1,
    ensures
        r is Err <==> all_played(views(finals@), views(played_answers@)) || order@.len() < day - 1,
        r matches Ok(st) ==> st.shuffled_words@ == order@.skip(day - 1) && st.seed == seed
            && st.initial_day == day && st.current_index == day,
{
    let n = finals.len();
    let mut any_left = false;
    for i in 0..n
        invariant
            n == finals@.len(),
            !any_left ==> forall|j: int| 0 <= j < i ==> views(played_answers@).contains(
                #[trigger] views(finals@)[j],
            ),
            any_left ==> !all_played(views(finals@), views(played_answers@)),
    {
        if !any_left && !was_played(played_answers, &finals[i]) {
            assert(views(finals@)[i as int] == finals@[i as int]@);
            any_left = true;
        }
    }
    if !any_left {
        return Err(AllWordsPlayed);
    }
    let mut queue: VecDeque<String> = VecDeque::new();
    let len = order.len();
    let skip = (day - 1) as usize;
    if len < skip {
        return Err(AllWordsPlayed);
    }
    let mut order = order;
    let ghost full = order@;
    let mut k: usize = len;
    while k > skip
        invariant
            skip <= k <= len,
            len == full.len(),
            order@ == full.take(k as int),
            queue@ == full.subrange(k as int, len as int),
        decreases k,
    {
        let w = order.pop().unwrap();
        queue.push_front(w);
        k = k - 1;
        assert(queue@ =~= full.subrange(k as int, len as int));
        assert(order@ =~= full.take(k as int));
    }
    assert(queue@ =~= full.skip(day - 1));
    Ok(RandomModeState { shuffled_words: queue, seed, initial_day: day, current_index: day })
}

/// Starts random mode: the final words are shuffled with a generator seeded
/// by `seed`, and the first `day - 1` of them are skipped. Refused exactly
/// when every final word was played or there are fewer than `day - 1` final
/// words; otherwise the queue is the seeded order of the final words (a
/// reordering of them) from the given day on.
pub fn init_random_mode(
    finals: &Vec<String>,
    played_answers: &Vec<String>,
    seed: u64,
    day: u32,
) -> (r: Result<RandomModeState, AllWordsPlayed>)
    requires
        day >= 1,
    ensures
        r is Err <==> all_played(views(finals@), views(played_answers@)) || finals@.len() < day
            - 1,
        r matches Ok(st) ==> views(st.shuffled_words@) == seeded_order(seed, views(finals@)).skip(
            day - 1,
        ) && (exists|order: Seq<String>|
            order.to_multiset() == finals@.to_multiset() && st.shuffled_words@ == order.skip(
                day - 1,
            )) && st.seed == seed && st.initial_day == day && st.current_index == day,
{
    let mut order: Vec<String> = Vec::new();
    let n = finals.len();
    for i in 0..n
        invariant
            n == finals@.len(),
            order@ == finals@.take(i as int),
    {
        order.push(finals[i].clone());
        assert(order@ =~= finals@.take(i + 1));
    }
    assert(finals@.take(n as int) == finals@);
    seeded_shuffle(&mut order, seed);
    proof {
        vstd::seq_lib::to_multiset_len(order@);
        vstd::seq_lib::to_multiset_len(finals@);
    }
    let ghost shuffled = order@;
    let r = random_mode_from_order(finals, played_answers, order, seed, day);
    assert(r matches Ok(st) ==> st.shuffled_words@ == shuffled.skip(day - 1));
    r
}

/// Takes the next answer of random mode with its day number, or `None` when
/// the queue is empty.
pub fn next_random_answer(state: &mut RandomModeState) -> (next: Option<(String, u32)>)
    requires
        old(state).shuffled_words@.len() > 0 ==> old(state).current_index < u32::MAX,
    ensures
        old(state).shuffled_words@.len() == 0 ==> next is None && final(state).shuffled_words@
            == old(state).shuffled_words@ && final(state).current_index == old(
            state,
        ).current_index && final(state).seed == old(state).seed && final(state).initial_day == old(
            state,
        ).initial_day,
        old(state).shuffled_words@.len() > 0 ==> next == Some(
            (old(state).shuffled_words@[0], old(state).current_index),
        ) && final(state).shuffled_words@ == old(state).shuffled_words@.drop_first()
            && final(state).current_index == old(state).current_index + 1 && final(state).seed
            == old(state).seed && final(state).initial_day == old(state).initial_day,
{
    match state.shuffled_words.pop_front() {
        Some(w) => {
            let day = state.current_index;
            state.current_index = state.current_index + 1;
            Some((w, day))
        },
        None => None,
    }
}

} // verus!
