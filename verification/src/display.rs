use std::collections::HashMap;
use vstd::prelude::*;
use vstd::std_specs::hash::group_hash_axioms;

use crate::game_logic::key_of;
use crate::session::status_at;
use crate::status::{status_char, Status};
use crate::text::{chars_of, push_char};

verus! {

/// The terminal color that starts a cell for a feedback character: green,
/// yellow or red background, none for anything else.
pub open spec fn color_code(c: char) -> Seq<char> {
    if c == 'G' {
        "\x1b[42m"@
    } else if c == 'Y' {
        "\x1b[43m"@
    } else if c == 'R' {
        "\x1b[41m"@
    } else {
        Seq::empty()
    }
}

/// One colored cell: the color, the character, a color reset and a space.
pub open spec fn cell(color: Seq<char>, c: char) -> Seq<char> {
    color + seq![c] + "\x1b[0m "@
}

/// The first `n` letters of a guess, each colored by its feedback.
pub open spec fn colored_guess(g: Seq<char>, f: Seq<char>, n: int) -> Seq<char>
    decreases n,
{
    if n <= 0 {
        Seq::empty()
    } else {
        colored_guess(g, f, n - 1) + cell(color_code(f[n - 1]), g[n - 1])
    }
}

/// The letters of a keyboard row, each colored by its status.
pub open spec fn colored_row(kb: Map<u32, Status>, row: Seq<char>, n: int) -> Seq<char>
    decreases n,
{
    if n <= 0 {
        Seq::empty()
    } else {
        colored_row(kb, row, n - 1) + cell(
            color_code(status_char(status_at(kb, key_of(row[n - 1])))),
            row[n - 1],
        )
    }
}

fn color_of(c: char) -> (s: &'static str)
    ensures
        s@ == color_code(c),
{
    if c == 'G' {
        "\x1b[42m"
    } else if c == 'Y' {
        "\x1b[43m"
    } else if c == 'R' {
        "\x1b[41m"
    } else {
        proof {
            reveal_strlit("");
        }
        ""
    }
}

fn append_cell(line: &mut String, color: &str, c: char)
    ensures
        final(line)@ == old(line)@ + cell(color@, c),
{
    line.append(color);
    push_char(line, c);
    line.append("\x1b[0m ");
    assert(final(line)@ =~= old(line)@ + cell(color@, c));
}

/// A guess for the terminal: its five letters, each colored by its feedback.
pub fn guess_line(guess: &str, feedback: &str) -> (line: String)
    requires
        guess@.len() >= 5,
        feedback@.len() >= 5,
    ensures
        line@ == colored_guess(guess@, feedback@, 5),
{
    let g = chars_of(guess);
    let f = chars_of(feedback);
    let mut line = String::new();
    for i in 0..5
        invariant
            g@ == guess@,
            f@ == feedback@,
            g@.len() >= 5,
            f@.len() >= 5,
            line@ == colored_guess(guess@, feedback@, i as int),
    {
        append_cell(&mut line, color_of(f[i]), g[i]);
    }
    line
}

/// A keyboard row for the terminal: each letter colored by its status
/// (letters missing from the keyboard count as not yet tried).
pub fn keyboard_row(keyboard: &HashMap<u32, Status>, row: &str) -> (line: String)
    ensures
        line@ == colored_row(keyboard@, row@, row@.len() as int),
{
    broadcast use group_hash_axioms;
    let cs = chars_of(row);
    let n = cs.len();
    let mut line = String::new();
    for i in 0..n
        invariant
            cs@ == row@,
            n == cs@.len(),
            line@ == colored_row(keyboard@, row@, i as int),
    {
        let st = match keyboard.get(&(cs[i] as u32)) {
            Some(s) => *s,
            None => Status::Unknown,
        };
        append_cell(&mut line, color_of(st.to_char()), cs[i]);
    }
    line
}

} // verus!
