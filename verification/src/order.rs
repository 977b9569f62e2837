use vstd::prelude::*;

use crate::game_logic::{key_of, lemma_key_of_injective};
use crate::text::chars_of;

verus! {

broadcast use vstd::seq_lib::group_to_multiset_ensures;

/// Dictionary order on texts, by code point: a proper prefix comes first.
pub open spec fn text_less(a: Seq<char>, b: Seq<char>) -> bool
    decreases a.len(),
{
    if a.len() == 0 {
        b.len() > 0
    } else if b.len() == 0 {
        false
    } else if a[0] != b[0] {
        key_of(a[0]) < key_of(b[0])
    } else {
        text_less(a.drop_first(), b.drop_first())
    }
}

/// No text comes before itself.
pub proof fn lemma_text_less_irreflexive(a: Seq<char>)
    ensures
        !text_less(a, a),
    decreases a.len(),
{
    if a.len() > 0 {
        lemma_text_less_irreflexive(a.drop_first());
    }
}

/// Dictionary order is transitive.
pub proof fn lemma_text_less_transitive(a: Seq<char>, b: Seq<char>, c: Seq<char>)
    requires
        text_less(a, b),
        text_less(b, c),
    ensures
        text_less(a, c),
    decreases a.len(),
{
    if a.len() > 0 && b.len() > 0 && c.len() > 0 && a[0] == b[0] && b[0] == c[0] {
        lemma_text_less_transitive(a.drop_first(), b.drop_first(), c.drop_first());
    }
}

/// Of two distinct texts exactly one comes first.
pub proof fn lemma_text_less_total(a: Seq<char>, b: Seq<char>)
    ensures
        a == b || text_less(a, b) || text_less(b, a),
        !(text_less(a, b) && text_less(b, a)),
    decreases a.len(),
{
    if a.len() > 0 && b.len() > 0 {
        if a[0] == b[0] {
            lemma_text_less_total(a.drop_first(), b.drop_first());
            if a.drop_first() == b.drop_first() {
                assert(a =~= seq![a[0]] + a.drop_first());
                assert(b =~= seq![b[0]] + b.drop_first());
            }
        } else {
            lemma_key_of_injective(a[0], b[0]);
        }
    } else if a.len() == 0 && b.len() == 0 {
        assert(a =~= b);
    }
}

/// The texts are in ascending dictionary order.
pub open spec fn texts_ascending(s: Seq<Seq<char>>) -> bool {
    forall|i: int, j: int| 0 <= i < j < s.len() ==> !text_less(#[trigger] s[j], #[trigger] s[i])
}

/// Whether `a` comes before `b` in dictionary order.
pub fn text_precedes(a: &str, b: &str) -> (r: bool)
    ensures
        r == text_less(a@, b@),
{
    let ac = chars_of(a);
    let bc = chars_of(b);
    let la = ac.len();
    let lb = bc.len();
    let mut i: usize = 0;
    assert(a@.skip(0) =~= a@);
    assert(b@.skip(0) =~= b@);
    while i < la && i < lb
        invariant
            ac@ == a@,
            bc@ == b@,
            la == a@.len(),
            lb == b@.len(),
            i <= la,
            i <= lb,
            text_less(a@, b@) == text_less(a@.skip(i as int), b@.skip(i as int)),
        decreases la - i,
    {
        if ac[i] != bc[i] {
            return (ac[i] as u32) < (bc[i] as u32);
        }
        assert(a@.skip(i as int).drop_first() =~= a@.skip(i + 1));
        assert(b@.skip(i as int).drop_first() =~= b@.skip(i + 1));
        i = i + 1;
    }
    la < lb
}

/// The texts of a sequence of strings.
pub open spec fn views(ws: Seq<String>) -> Seq<Seq<char>> {
    ws.map_values(|w: String| w@)
}

/// The strings in ascending dictionary order: the same strings, each as
/// often as before, each no later in the order than the next.
pub fn sort_texts(words: &Vec<String>) -> (sorted: Vec<String>)
    ensures
        views(sorted@).to_multiset() == views(words@).to_multiset(),
        texts_ascending(views(sorted@)),
{
    let mut out: Vec<String> = Vec::new();
    let n = words.len();
    for i in 0..n
        invariant
            n == words@.len(),
            views(out@).to_multiset() == views(words@.take(i as int)).to_multiset(),
            texts_ascending(views(out@)),
    {
        let x = words[i].clone();
        let len = out.len();
        let mut p: usize = 0;
        let mut hi: usize = len;
        while p < hi
            invariant
                len == out@.len(),
                p <= hi <= len,
                texts_ascending(views(out@)),
                forall|q: int| 0 <= q < p ==> text_less(#[trigger] out@[q]@, x@),
                forall|q: int| hi <= q < len ==> !text_less(#[trigger] out@[q]@, x@),
            decreases hi - p,
        {
            let mid = p + (hi - p) / 2;
            if text_precedes(out[mid].as_str(), x.as_str()) {
                assert forall|q: int| 0 <= q < mid + 1 implies text_less(#[trigger] out@[q]@, x@) by {
                    if q < mid {
                        assert(!text_less(views(out@)[mid as int], views(out@)[q]));
                        lemma_text_less_total(out@[q]@, out@[mid as int]@);
                        if out@[q]@ != out@[mid as int]@ {
                            lemma_text_less_transitive(out@[q]@, out@[mid as int]@, x@);
                        }
                    }
                }
                p = mid + 1;
            } else {
                assert forall|q: int| mid <= q < len implies !text_less(#[trigger] out@[q]@, x@) by {
                    if mid < q {
                        assert(!text_less(views(out@)[q], views(out@)[mid as int]));
                        if text_less(out@[q]@, x@) {
                            lemma_text_less_total(out@[q]@, out@[mid as int]@);
                            if out@[q]@ != out@[mid as int]@ {
                                lemma_text_less_transitive(out@[mid as int]@, out@[q]@, x@);
                            }
                        }
                    }
                }
                hi = mid;
            }
        }
        let ghost before = out@;
        out.insert(p, x);
        proof {
            assert(views(words@.take(i + 1)) == views(words@.take(i as int)).push(words@[i as int]@));
            assert(views(out@) == views(before).insert(p as int, x@));
            assert forall|a: int, b: int| 0 <= a < b < views(out@).len() implies !text_less(
                #[trigger] views(out@)[b],
                #[trigger] views(out@)[a],
            ) by {
                let s = views(out@);
                let t = views(before);
                if a < p && b == p {
                    lemma_text_less_total(t[a], x@);
                } else if a < p && b > p {
                    assert(text_less(t[a], x@));
                    if p < t.len() {
                        lemma_text_less_total(t[p as int], x@);
                        if t[p as int] != x@ {
                            lemma_text_less_transitive(t[a], x@, t[p as int]);
                        }
                        if b - 1 != p {
                            lemma_text_less_total(t[p as int], t[b - 1]);
                        }
                    }
                    lemma_text_less_total(t[a], t[b - 1]);
                } else if a == p && b > p {
                    lemma_text_less_total(t[p as int], x@);
                    if b - 1 != p {
                        lemma_text_less_total(t[p as int], t[b - 1]);
                        if text_less(t[b - 1], x@) {
                            lemma_text_less_transitive(t[b - 1], x@, t[p as int]);
                        }
                    }
                    lemma_text_less_total(x@, t[b - 1]);
                }
            }
        }
    }
    assert(words@.take(n as int) == words@);
    out
}

/// Ranking of (word, count) entries: higher counts first, ties in dictionary order.
pub open spec fn ranks_before(p: (Seq<char>, nat), q: (Seq<char>, nat)) -> bool {
    p.1 > q.1 || (p.1 == q.1 && text_less(p.0, q.0))
}

/// The text and count of an entry.
pub open spec fn entry_view(e: (String, u32)) -> (Seq<char>, nat) {
    (e.0@, e.1 as nat)
}

/// The entries are in ranking order: none ranks before an earlier one.
pub open spec fn entries_ranked(s: Seq<(String, u32)>) -> bool {
    forall|i: int, j: int|
        0 <= i < j < s.len() ==> !ranks_before(
            entry_view(#[trigger] s[j]),
            entry_view(#[trigger] s[i]),
        )
}

/// The ranking is transitive.
pub proof fn lemma_ranks_before_transitive(p: (Seq<char>, nat), q: (Seq<char>, nat), r: (Seq<char>, nat))
    requires
        ranks_before(p, q),
        ranks_before(q, r),
    ensures
        ranks_before(p, r),
{
    if p.1 == q.1 && q.1 == r.1 {
        lemma_text_less_transitive(p.0, q.0, r.0);
    }
}

/// Of two entries with different words exactly one ranks first; an entry
/// never ranks before itself.
pub proof fn lemma_ranks_before_total(p: (Seq<char>, nat), q: (Seq<char>, nat))
    ensures
        !(ranks_before(p, q) && ranks_before(q, p)),
        p.0 != q.0 ==> ranks_before(p, q) || ranks_before(q, p),
{
    lemma_text_less_total(p.0, q.0);
}

/// Whether entry `a` ranks before entry `b`.
pub fn entry_ranks_before(a: &(String, u32), b: &(String, u32)) -> (r: bool)
    ensures
        r == ranks_before(entry_view(*a), entry_view(*b)),
{
    if a.1 != b.1 {
        a.1 > b.1
    } else {
        text_precedes(a.0.as_str(), b.0.as_str())
    }
}

/// The entries in ranking order: the same entries, each as often as before.
pub fn sort_entries(entries: &Vec<(String, u32)>) -> (sorted: Vec<(String, u32)>)
    ensures
        sorted@.to_multiset() == entries@.to_multiset(),
        entries_ranked(sorted@),
{
    let mut out: Vec<(String, u32)> = Vec::new();
    let n = entries.len();
    for i in 0..n
        invariant
            n == entries@.len(),
            out@.to_multiset() == entries@.take(i as int).to_multiset(),
            entries_ranked(out@),
    {
        let x = (entries[i].0.clone(), entries[i].1);
        assert(x == entries@[i as int]);
        let len = out.len();
        let mut p: usize = 0;
        while p < len && entry_ranks_before(&out[p], &x)
            invariant
                len == out@.len(),
                p <= len,
                forall|q: int|
                    0 <= q < p ==> ranks_before(entry_view(#[trigger] out@[q]), entry_view(x)),
            decreases len - p,
        {
            p = p + 1;
        }
        let ghost before = out@;
        let ghost xv = entry_view(x);
        out.insert(p, x);
        proof {
            assert(entries@.take(i + 1) == entries@.take(i as int).push(entries@[i as int]));
            assert forall|a: int, b: int| 0 <= a < b < out@.len() implies !ranks_before(
                entry_view(#[trigger] out@[b]),
                entry_view(#[trigger] out@[a]),
            ) by {
                let t = before;
                if a < p && b == p {
                    lemma_ranks_before_total(entry_view(t[a]), xv);
                } else if a < p && b > p {
                    assert(ranks_before(entry_view(t[a]), xv));
                    if ranks_before(entry_view(t[b - 1]), entry_view(t[a])) {
                        lemma_ranks_before_transitive(entry_view(t[b - 1]), entry_view(t[a]), xv);
                        lemma_ranks_before_total(entry_view(t[p as int]), xv);
                        if ranks_before(xv, entry_view(t[p as int])) {
                            lemma_ranks_before_transitive(
                                entry_view(t[b - 1]),
                                xv,
                                entry_view(t[p as int]),
                            );
                        }
                    }
                } else if a == p && b > p {
                    lemma_ranks_before_total(entry_view(t[p as int]), xv);
                    if ranks_before(entry_view(t[b - 1]), xv) {
                        if b - 1 != p {
                            lemma_ranks_before_transitive(entry_view(t[b - 1]), xv, entry_view(t[p as int]));
                        }
                    }
                }
            }
        }
    }
    assert(entries@.take(n as int) == entries@);
    out
}

} // verus!
