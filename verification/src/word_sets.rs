use vstd::prelude::*;

use crate::order::{lemma_text_less_total, sort_texts, texts_ascending, views};
use crate::text::{
    ascii_letter, is_ascii_letter, raw_lines, split_lines, string_from_chars, trim_chars, trimmed,
    utf8_length_capped,
};

verus! {

/// What `str::to_uppercase` returns for a text.
pub uninterp spec fn uppercase_of(s: Seq<char>) -> Seq<char>;

/// Calls `str::to_uppercase`, whose result depends on the text alone; the
/// contract names that result and claims nothing more of it.
#[verifier::external_body]
pub(crate) fn to_uppercase(s: &str) -> (r: String)
    ensures
        r@ == uppercase_of(s@),
{
    s.to_uppercase()
}

/// Why a word list was refused.
#[derive(Debug, PartialEq, Eq)]
pub enum WordSetError {
    /// A word that is not five bytes long.
    WrongLength(String),
    /// A word with a character that is not an ASCII letter.
    NotAlphabetic(String),
    /// A word that occurs twice.
    Duplicate,
}

/// The words a word-list file holds: each line trimmed and upper-cased.
pub open spec fn listed_words(content: Seq<char>) -> Seq<Seq<char>> {
    raw_lines(content).map_values(|l: Seq<char>| uppercase_of(trimmed(l)))
}

/// A word is five bytes long in UTF-8.
pub open spec fn has_five_bytes(w: Seq<char>) -> bool {
    vstd::utf8::encode_utf8(w).len() == 5
}

/// A word of ASCII letters only.
pub open spec fn all_letters(w: Seq<char>) -> bool {
    forall|i: int| 0 <= i < w.len() ==> is_ascii_letter(#[trigger] w[i])
}

/// A word that a word list may hold.
pub open spec fn acceptable_word(w: Seq<char>) -> bool {
    has_five_bytes(w) && all_letters(w)
}

/// All words before `n` are acceptable.
pub open spec fn acceptable_before(ws: Seq<Seq<char>>, n: int) -> bool {
    forall|j: int| 0 <= j < n ==> acceptable_word(#[trigger] ws[j])
}

/// What a list of words gives: the first word that is not five bytes long,
/// or else not all ASCII letters, is refused; then a word occurring twice is
/// refused; otherwise the words in ascending order.
pub open spec fn word_list_outcome(ws: Seq<Seq<char>>, result: Result<Vec<String>, WordSetError>) -> bool {
    match result {
        Ok(v) => acceptable_before(ws, ws.len() as int) && ws.no_duplicates() && views(
            v@,
        ).to_multiset() == ws.to_multiset() && texts_ascending(views(v@)),
        Err(WordSetError::WrongLength(w)) => exists|i: int|
            0 <= i < ws.len() && acceptable_before(ws, i) && !has_five_bytes(#[trigger] ws[i]) && w@
                == ws[i],
        Err(WordSetError::NotAlphabetic(w)) => exists|i: int|
            0 <= i < ws.len() && acceptable_before(ws, i) && has_five_bytes(#[trigger] ws[i])
                && !all_letters(ws[i]) && w@ == ws[i],
        Err(WordSetError::Duplicate) => acceptable_before(ws, ws.len() as int)
            && !ws.no_duplicates(),
    }
}

/// Checks a list of words: see `word_list_outcome`.
pub fn validate_word_list(words: Vec<String>) -> (result: Result<Vec<String>, WordSetError>)
    ensures
        word_list_outcome(views(words@), result),
{
    let ghost ws = views(words@);
    let n = words.len();
    for i in 0..n
        invariant
            n == words@.len(),
            views(words@) == ws,
            acceptable_before(ws, i as int),
    {
        let ghost w = ws[i as int];
        assert(words@[i as int]@ == w);
        if utf8_length_capped(words[i].as_str(), 5) != 5 {
            assert(!has_five_bytes(ws[i as int]));
            return Err(WordSetError::WrongLength(words[i].clone()));
        }
        let cs = crate::text::chars_of(words[i].as_str());
        let m = cs.len();
        for j in 0..m
            invariant
                m == cs@.len(),
                cs@ == w,
                i < n,
                acceptable_before(ws, i as int),
                views(words@) == ws,
                n == words@.len(),
                has_five_bytes(w),
                w == ws[i as int],
                forall|t: int| 0 <= t < j ==> is_ascii_letter(#[trigger] w[t]),
        {
            assert(w[j as int] == cs@[j as int]);
            if !ascii_letter(cs[j]) {
                assert(!all_letters(ws[i as int]));
                return Err(WordSetError::NotAlphabetic(words[i].clone()));
            }
        }
    }
    let sorted = sort_texts(&words);
    let ghost sv = views(sorted@);
    let len = sorted.len();
    proof {
        vstd::seq_lib::to_multiset_len(sv);
        vstd::seq_lib::to_multiset_len(ws);
    }
    let mut i: usize = 1;
    while i < len
        invariant
            len == sorted@.len(),
            sv == views(sorted@),
            1 <= i,
            ws == views(words@),
            acceptable_before(ws, ws.len() as int),
            sv.to_multiset() == ws.to_multiset(),
            forall|a: int| 0 < a < i && a < len ==> sv[a - 1] != #[trigger] sv[a],
        decreases len - i,
    {
        if sorted[i - 1] == sorted[i] {
            proof {
                assert(sv[i - 1] == sv[i as int]);
                lemma_adjacent_duplicate(ws, sv, i - 1);
            }
            return Err(WordSetError::Duplicate);
        }
        i = i + 1;
    }
    proof {
        lemma_no_adjacent_duplicates(ws, sv);
    }
    Ok(sorted)
}

/// Parses the text of a word-list file: one word per line, trimmed and
/// upper-cased, then checked as `validate_word_list` does.
pub fn parse_word_set(content: &str) -> (result: Result<Vec<String>, WordSetError>)
    ensures
        word_list_outcome(listed_words(content@), result),
{
    let ghost ws = listed_words(content@);
    let lines = split_lines(content);
    let nl = lines.len();
    let mut words: Vec<String> = Vec::new();
    for i in 0..nl
        invariant
            nl == lines@.len(),
            nl == raw_lines(content@).len(),
            ws == listed_words(content@),
            forall|t: int| 0 <= t < nl ==> #[trigger] lines@[t]@ == raw_lines(content@)[t],
            views(words@) == ws.take(i as int),
    {
        let t = trim_chars(&lines[i]);
        let s = string_from_chars(t.as_slice());
        let w = to_uppercase(s.as_str());
        assert(w@ == ws[i as int]);
        let ghost before = words@;
        words.push(w);
        assert(views(words@) =~= views(before).push(ws[i as int]));
        assert(ws.take(i + 1) =~= ws.take(i as int).push(ws[i as int]));
    }
    assert(ws.take(nl as int) =~= ws);
    validate_word_list(words)
}

/// Two equal neighbours in a reordering mean the reordered sequence has a repeat.
proof fn lemma_adjacent_duplicate(ws: Seq<Seq<char>>, sv: Seq<Seq<char>>, i: int)
    requires
        sv.to_multiset() == ws.to_multiset(),
        0 <= i < i + 1 < sv.len(),
        sv[i] == sv[i + 1],
    ensures
        !ws.no_duplicates(),
{
    broadcast use vstd::seq_lib::group_to_multiset_ensures;

    if ws.no_duplicates() {
        ws.lemma_multiset_has_no_duplicates();
        sv.lemma_multiset_has_no_duplicates_conv();
    }
}

/// An ascending reordering without equal neighbours has no repeats, so
/// neither does the sequence it reorders.
proof fn lemma_no_adjacent_duplicates(ws: Seq<Seq<char>>, sv: Seq<Seq<char>>)
    requires
        sv.to_multiset() == ws.to_multiset(),
        texts_ascending(sv),
        forall|a: int| 0 < a < sv.len() ==> sv[a - 1] != #[trigger] sv[a],
    ensures
        ws.no_duplicates(),
{
    broadcast use vstd::seq_lib::group_to_multiset_ensures;

    assert forall|i: int, j: int| 0 <= i < j < sv.len() implies sv[i] != sv[j] by {
        if sv[i] == sv[j] {
            assert(!crate::order::text_less(sv[i + 1], sv[i]));
            assert(!crate::order::text_less(sv[j], sv[i + 1]));
            lemma_text_less_total(sv[i], sv[i + 1]);
            assert(sv[i] != sv[i + 1]);
        }
    }
    assert(sv.no_duplicates());
    sv.lemma_multiset_has_no_duplicates();
    ws.lemma_multiset_has_no_duplicates_conv();
}

/// The words of a list, each upper-cased.
pub fn uppercase_words(words: &[&str]) -> (r: Vec<String>)
    ensures
        r@.len() == words@.len(),
        forall|i: int| 0 <= i < words@.len() ==> #[trigger] r@[i]@ == uppercase_of(words@[i]@),
{
    let mut r: Vec<String> = Vec::new();
    let n = words.len();
    for i in 0..n
        invariant
            n == words@.len(),
            r@.len() == i,
            forall|j: int| 0 <= j < i ==> #[trigger] r@[j]@ == uppercase_of(words@[j]@),
    {
        r.push(to_uppercase(words[i]));
    }
    r
}

/// The built-in word lists, upper-cased: the final words and the acceptable words.
pub fn load_builtin_word_sets(finals: &[&str], acceptables: &[&str]) -> (sets: (
    Vec<String>,
    Vec<String>,
))
    ensures
        sets.0@.len() == finals@.len(),
        forall|i: int| 0 <= i < finals@.len() ==> #[trigger] sets.0@[i]@ == uppercase_of(finals@[i]@),
        sets.1@.len() == acceptables@.len(),
        forall|i: int|
            0 <= i < acceptables@.len() ==> #[trigger] sets.1@[i]@ == uppercase_of(acceptables@[i]@),
{
    (uppercase_words(finals), uppercase_words(acceptables))
}

} // verus!
