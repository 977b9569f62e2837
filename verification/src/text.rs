use vstd::prelude::*;

verus! {

/// Appends one character to a string.
/// Calls `String::push`, which appends the given `char` to the end of the string.
#[verifier::external_body]
pub(crate) fn push_char(s: &mut String, c: char)
    ensures
        final(s)@ == old(s)@.push(c),
{
    s.push(c);
}

/// The characters of a string slice, in order.
pub fn chars_of(s: &str) -> (v: Vec<char>)
    ensures
        v@ == s@,
{
    broadcast use vstd::string::group_string_axioms;
    let mut v: Vec<char> = Vec::new();
    for c in it: s.chars()
        invariant
            v@ == it.seq().take(it.index() as int),
            it.seq() == s@,
    {
        v.push(c);
    }
    v
}

/// A string made of the given characters, in order.
pub fn string_from_chars(cs: &[char]) -> (s: String)
    ensures
        s@ == cs@,
{
    let mut s = String::new();
    let n = cs.len();
    for i in 0..n
        invariant
            n == cs@.len(),
            s@ == cs@.take(i as int),
    {
        push_char(&mut s, cs[i]);
        assert(cs@.take(i + 1) == cs@.take(i as int).push(cs@[i as int]));
    }
    assert(cs@.take(n as int) == cs@);
    s
}

/// Whether a character has the Unicode `White_Space` property.
pub open spec fn is_white_space(c: char) -> bool {
    let k = c as u32;
    (0x9 <= k <= 0xd) || k == 0x20 || k == 0x85 || k == 0xa0 || k == 0x1680 || (0x2000 <= k
        <= 0x200a) || k == 0x2028 || k == 0x2029 || k == 0x202f || k == 0x205f || k == 0x3000
}

/// Whether a character is a letter `A`-`Z` or `a`-`z`.
pub open spec fn is_ascii_letter(c: char) -> bool {
    let k = c as u32;
    (0x41 <= k <= 0x5a) || (0x61 <= k <= 0x7a)
}

/// The text without its leading white space.
pub open spec fn trim_start(s: Seq<char>) -> Seq<char>
    decreases s.len(),
{
    if s.len() > 0 && is_white_space(s[0]) {
        trim_start(s.drop_first())
    } else {
        s
    }
}

/// The text without its trailing white space.
pub open spec fn trim_end(s: Seq<char>) -> Seq<char>
    decreases s.len(),
{
    if s.len() > 0 && is_white_space(s.last()) {
        trim_end(s.drop_last())
    } else {
        s
    }
}

/// The text without leading and trailing white space.
pub open spec fn trimmed(s: Seq<char>) -> Seq<char> {
    trim_end(trim_start(s))
}

/// Whether a character has the Unicode `White_Space` property.
pub fn white_space(c: char) -> (r: bool)
    ensures
        r == is_white_space(c),
{
    let k = c as u32;
    (0x9 <= k && k <= 0xd) || k == 0x20 || k == 0x85 || k == 0xa0 || k == 0x1680 || (0x2000 <= k
        && k <= 0x200a) || k == 0x2028 || k == 0x2029 || k == 0x202f || k == 0x205f || k == 0x3000
}

/// Whether a character is a letter `A`-`Z` or `a`-`z`.
pub fn ascii_letter(c: char) -> (r: bool)
    ensures
        r == is_ascii_letter(c),
{
    let k = c as u32;
    (0x41 <= k && k <= 0x5a) || (0x61 <= k && k <= 0x7a)
}

/// The characters without leading and trailing white space.
pub fn trim_chars(cs: &Vec<char>) -> (r: Vec<char>)
    ensures
        r@ == trimmed(cs@),
{
    let len = cs.len();
    let mut i: usize = 0;
    assert(cs@.skip(0) =~= cs@);
    while i < len && white_space(cs[i])
        invariant
            len == cs@.len(),
            i <= len,
            trim_start(cs@) == trim_start(cs@.skip(i as int)),
        decreases len - i,
    {
        assert(cs@.skip(i as int).drop_first() =~= cs@.skip(i + 1));
        i = i + 1;
    }
    assert(trim_start(cs@) == cs@.subrange(i as int, len as int)) by {
        assert(cs@.skip(i as int) =~= cs@.subrange(i as int, len as int));
    }
    let mut j: usize = len;
    while j > i && white_space(cs[j - 1])
        invariant
            len == cs@.len(),
            i <= j <= len,
            trimmed(cs@) == trim_end(cs@.subrange(i as int, j as int)),
        decreases j,
    {
        assert(cs@.subrange(i as int, j as int).drop_last() =~= cs@.subrange(i as int, j - 1));
        j = j - 1;
    }
    let mut r: Vec<char> = Vec::new();
    for t in i..j
        invariant
            len == cs@.len(),
            i <= j <= len,
            r@ == cs@.subrange(i as int, t as int),
    {
        r.push(cs[t]);
        assert(cs@.subrange(i as int, t + 1) =~= cs@.subrange(i as int, t as int).push(cs@[t as int]));
    }
    r
}

/// The pieces of a text between newline characters: one more piece than
/// there are newlines.
pub open spec fn newline_pieces(s: Seq<char>) -> Seq<Seq<char>>
    decreases s.len(),
{
    if s.len() == 0 {
        seq![Seq::empty()]
    } else if s.last() == '\n' {
        newline_pieces(s.drop_last()).push(Seq::empty())
    } else {
        let p = newline_pieces(s.drop_last());
        p.update(p.len() - 1, p.last().push(s.last()))
    }
}

/// The lines of a text, before trimming: the pieces between newlines, where a
/// final newline ends the last line rather than starting an empty one.
pub open spec fn raw_lines(s: Seq<char>) -> Seq<Seq<char>> {
    if s.len() == 0 {
        Seq::empty()
    } else if s.last() == '\n' {
        newline_pieces(s.drop_last())
    } else {
        newline_pieces(s)
    }
}

proof fn lemma_newline_pieces_nonempty(s: Seq<char>)
    ensures
        newline_pieces(s).len() >= 1,
    decreases s.len(),
{
    if s.len() > 0 {
        lemma_newline_pieces_nonempty(s.drop_last());
    }
}

/// The lines of a text, each as its characters (line ends not included).
pub fn split_lines(s: &str) -> (lines: Vec<Vec<char>>)
    ensures
        lines@.len() == raw_lines(s@).len(),
        forall|i: int| 0 <= i < lines@.len() ==> #[trigger] lines@[i]@ == raw_lines(s@)[i],
{
    let cs = chars_of(s);
    let n = cs.len();
    let mut done: Vec<Vec<char>> = Vec::new();
    let mut current: Vec<char> = Vec::new();
    assert(cs@.take(0) =~= Seq::<char>::empty());
    for i in 0..n
        invariant
            n == cs@.len(),
            cs@ == s@,
            done@.len() + 1 == newline_pieces(cs@.take(i as int)).len(),
            forall|t: int|
                0 <= t < done@.len() ==> #[trigger] done@[t]@ == newline_pieces(cs@.take(i as int))[t],
            current@ == newline_pieces(cs@.take(i as int)).last(),
    {
        let ghost prev = cs@.take(i as int);
        proof {
            assert(cs@.take(i + 1).drop_last() =~= prev);
            assert(cs@.take(i + 1).last() == cs@[i as int]);
            lemma_newline_pieces_nonempty(prev);
        }
        if cs[i] == '\n' {
            let finished = current;
            done.push(finished);
            current = Vec::new();
        } else {
            current.push(cs[i]);
        }
    }
    assert(cs@.take(n as int) =~= cs@);
    proof {
        lemma_newline_pieces_nonempty(cs@);
        if n > 0 {
            lemma_newline_pieces_nonempty(cs@.drop_last());
        }
    }
    if n > 0 && cs[n - 1] != '\n' {
        done.push(current);
    }
    proof {
        if n > 0 && cs@.last() == '\n' {
            assert(newline_pieces(cs@) == newline_pieces(cs@.drop_last()).push(Seq::empty()));
        }
    }
    done
}

/// A length, or `cap + 1` where it exceeds `cap`.
pub open spec fn capped_length(len: nat, cap: nat) -> nat {
    if len <= cap {
        len
    } else {
        cap + 1
    }
}

/// The UTF-8 length of a text in bytes, or `cap + 1` where it is longer than `cap`.
pub fn utf8_length_capped(s: &str, cap: usize) -> (r: usize)
    requires
        cap < usize::MAX,
    ensures
        r == capped_length(vstd::utf8::encode_utf8(s@).len(), cap as nat),
{
    let cs = chars_of(s);
    let len = cs.len();
    let mut total: usize = 0;
    assert(s@.skip(0) =~= s@);
    for i in 0..len
        invariant
            len == s@.len(),
            cs@ == s@,
            total <= cap,
            cap < usize::MAX,
            total + vstd::utf8::encode_utf8(s@.skip(i as int)).len() == vstd::utf8::encode_utf8(
                s@,
            ).len(),
    {
        let k = cs[i] as u32;
        proof {
            vstd::utf8::char_is_scalar(cs@[i as int]);
            assert(s@.skip(i as int).drop_first() =~= s@.skip(i + 1));
            assert(s@.skip(i as int)[0] == cs@[i as int]);
        }
        let width: usize = if k <= 0x7f {
            1
        } else if k <= 0x7ff {
            2
        } else if k <= 0xffff {
            3
        } else {
            4
        };
        assert(width == vstd::utf8::encode_scalar(k).len());
        if width > cap - total {
            return cap + 1;
        }
        total = total + width;
    }
    assert(s@.skip(len as int) =~= Seq::<char>::empty());
    total
}

/// Removes the last character of a string and returns it, or returns `None`
/// for an empty string.
/// Calls `String::pop`, which removes the last `char` and returns it, or
/// returns `None` when the string is empty.
#[verifier::external_body]
pub(crate) fn pop_char(s: &mut String) -> (c: Option<char>)
    ensures
        old(s)@.len() == 0 ==> c is None && final(s)@ == old(s)@,
        old(s)@.len() > 0 ==> c == Some(old(s)@.last()) && final(s)@ == old(s)@.drop_last(),
{
    s.pop()
}

/// The decimal digit for a value below ten.
pub open spec fn digit_char(d: nat) -> char {
    if d == 0 {
        '0'
    } else if d == 1 {
        '1'
    } else if d == 2 {
        '2'
    } else if d == 3 {
        '3'
    } else if d == 4 {
        '4'
    } else if d == 5 {
        '5'
    } else if d == 6 {
        '6'
    } else if d == 7 {
        '7'
    } else if d == 8 {
        '8'
    } else {
        '9'
    }
}

/// The decimal representation of a number, without leading zeros.
pub open spec fn decimal(n: nat) -> Seq<char>
    decreases n,
{
    if n < 10 {
        seq![digit_char(n)]
    } else {
        decimal(n / 10).push(digit_char(n % 10))
    }
}

fn digit(d: usize) -> (c: char)
    requires
        d < 10,
    ensures
        c == digit_char(d as nat),
{
    match d {
        0 => '0',
        1 => '1',
        2 => '2',
        3 => '3',
        4 => '4',
        5 => '5',
        6 => '6',
        7 => '7',
        8 => '8',
        _ => '9',
    }
}

/// The decimal representation of a number.
pub fn decimal_string(n: usize) -> (s: String)
    ensures
        s@ == decimal(n as nat),
    decreases n,
{
    if n < 10 {
        let mut s = String::new();
        push_char(&mut s, digit(n));
        assert(s@ =~= seq![digit_char(n as nat)]);
        s
    } else {
        let mut s = decimal_string(n / 10);
        push_char(&mut s, digit(n % 10));
        s
    }
}

/// Upper-cases an ASCII letter; other characters are unchanged.
pub open spec fn ascii_upper(c: char) -> char {
    if 0x61 <= (c as u32) <= 0x7a {
        ((c as u32) - 32) as char
    } else {
        c
    }
}

/// Upper-cases an ASCII letter; other characters are unchanged.
pub fn to_ascii_upper(c: char) -> (r: char)
    ensures
        r == ascii_upper(c),
{
    let k = c as u32;
    if 0x61 <= k && k <= 0x7a {
        ((k - 32) as u8) as char
    } else {
        c
    }
}

} // verus!
