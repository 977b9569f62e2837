use vstd::prelude::*;

verus! {

/// What is known about a letter: in the right place, in the word elsewhere,
/// absent from the word, or not yet tried.
#[derive(Copy, Clone, PartialEq, Eq, Debug, Structural)]
pub enum Status {
    Green,
    Yellow,
    Red,
    Unknown,
}

/// The feedback character of a status (`X` for a letter not yet tried).
pub open spec fn status_char(s: Status) -> char {
    match s {
        Status::Green => 'G',
        Status::Yellow => 'Y',
        Status::Red => 'R',
        Status::Unknown => 'X',
    }
}

/// The rank of a status: a status with a higher rank says more about a letter.
pub open spec fn status_rank(s: Status) -> int {
    match s {
        Status::Green => 3,
        Status::Yellow => 2,
        Status::Red => 1,
        Status::Unknown => 0,
    }
}

/// The status that a feedback character stands for.
pub open spec fn status_of_feedback(c: char) -> Status {
    if c == 'G' {
        Status::Green
    } else if c == 'Y' {
        Status::Yellow
    } else if c == 'R' {
        Status::Red
    } else {
        Status::Unknown
    }
}

impl Status {
    pub fn to_char(&self) -> (c: char)
        ensures
            c == status_char(*self),
    {
        match self {
            Status::Green => 'G',
            Status::Yellow => 'Y',
            Status::Red => 'R',
            Status::Unknown => 'X',
        }
    }

    pub fn priority(&self) -> (p: i32)
        ensures
            p == status_rank(*self),
    {
        match self {
            Status::Green => 3,
            Status::Yellow => 2,
            Status::Red => 1,
            Status::Unknown => 0,
        }
    }

    pub fn from_feedback(c: char) -> (s: Self)
        ensures
            s == status_of_feedback(c),
    {
        match c {
            'G' => Status::Green,
            'Y' => Status::Yellow,
            'R' => Status::Red,
            _ => Status::Unknown,
        }
    }
}

/// Reading back the character of a status gives the status again.
pub proof fn lemma_status_char_round_trip(s: Status)
    ensures
        status_of_feedback(status_char(s)) == s,
{
}

/// Two statuses of equal rank are the same status: the rank orders statuses strictly.
pub proof fn lemma_status_rank_injective(a: Status, b: Status)
    ensures
        status_rank(a) == status_rank(b) <==> a == b,
        0 <= status_rank(a) <= 3,
{
}

} // verus!
