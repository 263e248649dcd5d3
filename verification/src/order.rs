//! The lexicographic order on strings, and sorting by it.

use crate::text::chars_of;
use vstd::prelude::*;

verus! {

/// `a` comes before `b`, or equals it, in the lexicographic order by code
/// point: the order in which `str` values compare.
pub open spec fn lex_le(a: Seq<char>, b: Seq<char>) -> bool
    decreases a.len(),
{
    if a.len() == 0 {
        true
    } else if b.len() == 0 {
        false
    } else if a[0] == b[0] {
        lex_le(a.skip(1), b.skip(1))
    } else {
        a[0] < b[0]
    }
}

/// Every two neighbours, and so every two lines, stand in lexicographic order.
pub open spec fn sorted(v: Seq<Seq<char>>) -> bool {
    forall|i: int, j: int| 0 <= i < j < v.len() ==> lex_le(#[trigger] v[i], #[trigger] v[j])
}

/// Of two strings one comes first.
pub proof fn lemma_lex_total(a: Seq<char>, b: Seq<char>)
    ensures
        lex_le(a, b) || lex_le(b, a),
    decreases a.len(),
{
    if a.len() > 0 && b.len() > 0 {
        if a[0] == b[0] {
            lemma_lex_total(a.skip(1), b.skip(1));
        }
    }
}

/// The order is transitive.
pub proof fn lemma_lex_trans(a: Seq<char>, b: Seq<char>, c: Seq<char>)
    requires
        lex_le(a, b),
        lex_le(b, c),
    ensures
        lex_le(a, c),
    decreases a.len(),
{
    if a.len() > 0 && b.len() > 0 && c.len() > 0 {
        if a[0] == b[0] && b[0] == c[0] {
            lemma_lex_trans(a.skip(1), b.skip(1), c.skip(1));
        }
    }
}

/// Two strings that each come before the other are the same string.
pub proof fn lemma_lex_antisym(a: Seq<char>, b: Seq<char>)
    requires
        lex_le(a, b),
        lex_le(b, a),
    ensures
        a == b,
    decreases a.len(),
{
    if a.len() > 0 && b.len() > 0 {
        assert(a[0] == b[0]);
        lemma_lex_antisym(a.skip(1), b.skip(1));
        assert(a =~= seq![a[0]] + a.skip(1));
        assert(b =~= seq![b[0]] + b.skip(1));
    } else {
        assert(a =~= b);
    }
}

/// Decides [`lex_le`].
pub fn str_le(a: &str, b: &str) -> (r: bool)
    ensures
        r == lex_le(a@, b@),
{
    let ca = chars_of(a);
    let cb = chars_of(b);
    let mut i: usize = 0;
    assert(ca@.skip(0) =~= ca@);
    assert(cb@.skip(0) =~= cb@);
    while i < ca.len() && i < cb.len() && ca[i] == cb[i]
        invariant
            i <= ca.len(),
            i <= cb.len(),
            lex_le(ca@, cb@) == lex_le(ca@.skip(i as int), cb@.skip(i as int)),
        decreases ca.len() - i,
    {
        assert(ca@.skip(i as int).skip(1) =~= ca@.skip(i + 1));
        assert(cb@.skip(i as int).skip(1) =~= cb@.skip(i + 1));
        i += 1;
    }
    if i == ca.len() {
        true
    } else if i == cb.len() {
        false
    } else {
        ca[i] < cb[i]
    }
}

/// The number of lines at the start of `s` that come before `x` or equal it.
pub open spec fn prefix_le(s: Seq<Seq<char>>, x: Seq<char>) -> nat
    decreases s.len(),
{
    if s.len() > 0 && lex_le(s[0], x) {
        1 + prefix_le(s.skip(1), x)
    } else {
        0
    }
}

/// `s` with `x` put in behind the lines at its start that come before `x`
/// or equal it.
pub open spec fn insert_sorted(s: Seq<Seq<char>>, x: Seq<char>) -> Seq<Seq<char>> {
    s.insert(prefix_le(s, x) as int, x)
}

/// The lines of `v` in lexicographic order.
pub open spec fn sort_spec(v: Seq<Seq<char>>) -> Seq<Seq<char>>
    decreases v.len(),
{
    if v.len() == 0 {
        Seq::empty()
    } else {
        insert_sorted(sort_spec(v.drop_last()), v.last())
    }
}

/// The lines counted by `prefix_le` come before `x` or equal it, and the
/// line behind them, if there is one, does not.
pub proof fn lemma_prefix_le(s: Seq<Seq<char>>, x: Seq<char>)
    ensures
        prefix_le(s, x) <= s.len(),
        forall|k: int| 0 <= k < prefix_le(s, x) ==> lex_le(#[trigger] s[k], x),
        prefix_le(s, x) < s.len() ==> !lex_le(s[prefix_le(s, x) as int], x),
    decreases s.len(),
{
    if s.len() > 0 && lex_le(s[0], x) {
        let t = s.skip(1);
        lemma_prefix_le(t, x);
        assert forall|k: int| 0 <= k < prefix_le(s, x) implies lex_le(#[trigger] s[k], x) by {
            if k > 0 {
                assert(s[k] == t[k - 1]);
            }
        }
        if prefix_le(s, x) < s.len() {
            assert(s[prefix_le(s, x) as int] == t[prefix_le(t, x) as int]);
        }
    }
}

/// Putting one more element into a sequence adds it to the elements.
proof fn lemma_insert_multiset<A>(s: Seq<A>, p: int, x: A)
    requires
        0 <= p <= s.len(),
    ensures
        s.insert(p, x).to_multiset() == s.to_multiset().insert(x),
{
    broadcast use vstd::seq_lib::group_to_multiset_ensures;

    let t = s.insert(p, x);
    assert(t.remove(p) =~= s);
    assert(t[p] == x);
    assert(t.to_multiset().count(x) > 0) by {
        assert(t.contains(x));
    }
    assert(t.to_multiset() =~= t.to_multiset().remove(x).insert(x));
}

/// Putting a line into sorted lines at its place leaves them sorted and adds
/// just that line.
pub proof fn lemma_insert_sorted(s: Seq<Seq<char>>, x: Seq<char>)
    requires
        sorted(s),
    ensures
        sorted(insert_sorted(s, x)),
        insert_sorted(s, x).to_multiset() == s.to_multiset().insert(x),
{
    lemma_prefix_le(s, x);
    let p = prefix_le(s, x) as int;
    let after = insert_sorted(s, x);
    if p < s.len() {
        lemma_lex_total(s[p], x);
    }
    assert forall|a: int, b: int| 0 <= a < b < after.len() implies lex_le(
        #[trigger] after[a],
        #[trigger] after[b],
    ) by {
        if b < p {
            assert(after[a] == s[a] && after[b] == s[b]);
        } else if b == p {
            assert(after[a] == s[a]);
        } else if a < p {
            assert(after[a] == s[a] && after[b] == s[b - 1]);
        } else if a == p {
            assert(after[b] == s[b - 1]);
            if p < b - 1 {
                lemma_lex_trans(x, s[p], s[b - 1]);
            }
        } else {
            assert(after[a] == s[a - 1] && after[b] == s[b - 1]);
        }
    }
    lemma_insert_multiset(s, p, x);
}

/// Sorting gives the same lines, each as often as before, in lexicographic
/// order.
pub proof fn lemma_sort_spec(v: Seq<Seq<char>>)
    ensures
        sorted(sort_spec(v)),
        sort_spec(v).to_multiset() == v.to_multiset(),
        sort_spec(v).len() == v.len(),
    decreases v.len(),
{
    broadcast use vstd::seq_lib::group_to_multiset_ensures;

    if v.len() == 0 {
        assert(v =~= Seq::empty());
    } else {
        lemma_sort_spec(v.drop_last());
        lemma_insert_sorted(sort_spec(v.drop_last()), v.last());
        lemma_prefix_le(sort_spec(v.drop_last()), v.last());
        assert(v =~= v.drop_last().push(v.last()));
    }
}

/// The lines in lexicographic order, each as often as it was given.
pub fn sort_strings(lines: &Vec<String>) -> (out: Vec<String>)
    ensures
        out.deep_view() == sort_spec(lines.deep_view()),
        sorted(out.deep_view()),
        out.deep_view().to_multiset() == lines.deep_view().to_multiset(),
{
    let mut out: Vec<String> = Vec::new();
    let mut i: usize = 0;
    let ghost all = lines.deep_view();
    assert(all.take(0) =~= Seq::<Seq<char>>::empty());
    assert(out.deep_view() =~= Seq::<Seq<char>>::empty());
    while i < lines.len()
        invariant
            i <= lines.len(),
            all == lines.deep_view(),
            out.deep_view() == sort_spec(all.take(i as int)),
        decreases lines.len() - i,
    {
        let line = lines[i].clone();
        let ghost before = out.deep_view();
        let mut p: usize = 0;
        assert(before.skip(0) =~= before);
        while p < out.len() && str_le(out[p].as_str(), line.as_str())
            invariant
                p <= out.len(),
                before == out.deep_view(),
                prefix_le(before, line@) == p + prefix_le(before.skip(p as int), line@),
            decreases out.len() - p,
        {
            assert(before[p as int] == out@[p as int]@);
            assert(before.skip(p as int).skip(1) =~= before.skip(p + 1));
            p += 1;
        }
        proof {
            if p < out.len() {
                assert(before[p as int] == out@[p as int]@);
            }
            assert(all.take(i + 1).drop_last() =~= all.take(i as int));
            assert(all.take(i + 1).last() == line@);
        }
        out.insert(p, line);
        assert(out.deep_view() =~= before.insert(p as int, line@));
        i += 1;
    }
    assert(all.take(i as int) =~= all);
    proof {
        lemma_sort_spec(all);
    }
    out
}

} // verus!
