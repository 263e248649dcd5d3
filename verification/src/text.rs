//! Text helpers: the few character classes and conversions that the
//! standard library decides, and verified routines over sequences of
//! characters built on top of them.

use vstd::prelude::*;

verus! {

/// Whether `c` has the Unicode property `White_Space`, which is what
/// `char::is_whitespace` tells: the controls U+0009 to U+000D and U+0085,
/// the space, the no-break space U+00A0, U+1680, the spaces U+2000 to
/// U+200A, the line and paragraph separators U+2028 and U+2029, U+202F,
/// U+205F and U+3000.
pub open spec fn char_is_whitespace(c: char) -> bool {
    ('\u{9}' <= c && c <= '\u{d}') || c == ' ' || c == '\u{85}' || c == '\u{a0}' || c
        == '\u{1680}' || ('\u{2000}' <= c && c <= '\u{200a}') || c == '\u{2028}' || c
        == '\u{2029}' || c == '\u{202f}' || c == '\u{205f}' || c == '\u{3000}'
}

/// Whether `char::is_uppercase` holds of `c` (the Unicode `Uppercase` property).
pub uninterp spec fn char_is_uppercase(c: char) -> bool;

/// Whether `char::is_lowercase` holds of `c` (the Unicode `Lowercase` property).
pub uninterp spec fn char_is_lowercase(c: char) -> bool;

/// The lowercase form of a string, as `str::to_lowercase` computes it.
pub uninterp spec fn str_to_lowercase(s: Seq<char>) -> Seq<char>;

/// Calls `char::is_whitespace`. Trusted: the result tells whether the
/// character has the Unicode property `White_Space`, whose code points
/// `char_is_whitespace` lists.
#[verifier::external_body]
pub(crate) fn is_whitespace(c: char) -> (b: bool)
    ensures
        b == char_is_whitespace(c),
{
    c.is_whitespace()
}

/// Calls `char::is_uppercase`. Trusted: the result is the character class
/// that the standard library defines, named `char_is_uppercase`.
#[verifier::external_body]
pub(crate) fn is_uppercase(c: char) -> (b: bool)
    ensures
        b == char_is_uppercase(c),
{
    c.is_uppercase()
}

/// Calls `char::is_lowercase`. Trusted: the result is the character class
/// that the standard library defines, named `char_is_lowercase`.
#[verifier::external_body]
pub(crate) fn is_lowercase(c: char) -> (b: bool)
    ensures
        b == char_is_lowercase(c),
{
    c.is_lowercase()
}

/// Calls `str::to_lowercase`. Trusted: the result is the lowercase form
/// that the standard library defines, named `str_to_lowercase`.
#[verifier::external_body]
pub(crate) fn to_lowercase(s: &str) -> (r: String)
    ensures
        r@ == str_to_lowercase(s@),
{
    s.to_lowercase()
}

/// Calls `String::push`. Trusted: the character is appended at the end and
/// nothing else changes.
#[verifier::external_body]
pub(crate) fn push_char(s: &mut String, c: char)
    ensures
        final(s)@ == old(s)@.push(c),
{
    s.push(c)
}

/// The characters of `s`, in order.
pub fn chars_of(s: &str) -> (v: Vec<char>)
    ensures
        v@ == s@,
{
    let mut v: Vec<char> = Vec::new();
    for c in it: s.chars()
        invariant
            v@ == it.seq().take(it.index() as int),
    {
        v.push(c);
    }
    v
}

/// The string made of `cs[from..to]`.
pub(crate) fn string_of(cs: &Vec<char>, from: usize, to: usize) -> (r: String)
    requires
        from <= to <= cs.len(),
    ensures
        r@ == cs@.subrange(from as int, to as int),
{
    let mut r = String::new();
    let mut i: usize = from;
    while i < to
        invariant
            from <= i <= to <= cs.len(),
            r@ == cs@.subrange(from as int, i as int),
        decreases to - i,
    {
        push_char(&mut r, cs[i]);
        i += 1;
    }
    r
}

/// Whether the two strings hold the same characters.
pub fn str_eq(a: &str, b: &str) -> (r: bool)
    ensures
        r == (a@ == b@),
{
    let ca = chars_of(a);
    let cb = chars_of(b);
    if ca.len() != cb.len() {
        return false;
    }
    let mut i: usize = 0;
    while i < ca.len()
        invariant
            i <= ca.len() == cb.len(),
            ca@ == a@,
            cb@ == b@,
            forall|k: int| 0 <= k < i ==> ca@[k] == cb@[k],
        decreases ca.len() - i,
    {
        if ca[i] != cb[i] {
            return false;
        }
        i += 1;
    }
    assert(a@ =~= b@);
    true
}

/// The code point of `c`, or of its lower-case form if `c` is one of the
/// ASCII letters `A` to `Z`.
pub open spec fn ascii_lower_code(c: char) -> int {
    if 'A' <= c && c <= 'Z' {
        c as int + 32
    } else {
        c as int
    }
}

/// Whether the two strings are the same but for the case of ASCII letters.
pub open spec fn eq_ignore_ascii_case_spec(a: Seq<char>, b: Seq<char>) -> bool {
    a.len() == b.len() && forall|i: int|
        0 <= i < a.len() ==> ascii_lower_code(#[trigger] a[i]) == ascii_lower_code(b[i])
}

/// Decides [`ascii_lower_code`].
fn lower_code(c: char) -> (u: u32)
    ensures
        u == ascii_lower_code(c),
{
    if c >= 'A' && c <= 'Z' {
        c as u32 + 32
    } else {
        c as u32
    }
}

/// Whether the two strings are the same but for the case of ASCII letters,
/// as `str::eq_ignore_ascii_case` tells.
pub fn eq_ignore_ascii_case(a: &str, b: &str) -> (r: bool)
    ensures
        r == eq_ignore_ascii_case_spec(a@, b@),
{
    let ca = chars_of(a);
    let cb = chars_of(b);
    if ca.len() != cb.len() {
        return false;
    }
    let mut i: usize = 0;
    while i < ca.len()
        invariant
            i <= ca.len() == cb.len(),
            ca@ == a@,
            cb@ == b@,
            forall|k: int| 0 <= k < i ==> ascii_lower_code(#[trigger] ca@[k]) == ascii_lower_code(
                cb@[k],
            ),
        decreases ca.len() - i,
    {
        if lower_code(ca[i]) != lower_code(cb[i]) {
            return false;
        }
        i += 1;
    }
    true
}

/// `a` followed by `b`.
pub fn concat2(a: &str, b: &str) -> (r: String)
    ensures
        r@ == a@ + b@,
{
    let mut r = String::from_str(a);
    r.append(b);
    r
}

/// `a`, `b` and `c` in a row.
pub fn concat3(a: &str, b: &str, c: &str) -> (r: String)
    ensures
        r@ == a@ + b@ + c@,
{
    let mut r = String::from_str(a);
    r.append(b);
    r.append(c);
    r
}

/// Whether `c` is one of the ASCII digits `0` to `9`.
pub open spec fn char_is_ascii_digit(c: char) -> bool {
    '0' <= c && c <= '9'
}

/// Decides [`char_is_ascii_digit`].
pub fn is_ascii_digit(c: char) -> (b: bool)
    ensures
        b == char_is_ascii_digit(c),
{
    c >= '0' && c <= '9'
}

/// The length of `s` once the whitespace at its end is dropped.
pub open spec fn trimmed_len(s: Seq<char>) -> nat
    decreases s.len(),
{
    if s.len() > 0 && char_is_whitespace(s.last()) {
        trimmed_len(s.drop_last())
    } else {
        s.len()
    }
}

/// The number of whitespace characters at the start of `s`.
pub open spec fn leading_ws(s: Seq<char>) -> nat
    decreases s.len(),
{
    if s.len() > 0 && char_is_whitespace(s[0]) {
        1 + leading_ws(s.skip(1))
    } else {
        0
    }
}

/// `s` without the whitespace at its end.
pub open spec fn trim_end_spec(s: Seq<char>) -> Seq<char> {
    s.take(trimmed_len(s) as int)
}

/// `s` without the whitespace at its start.
pub open spec fn trim_start_spec(s: Seq<char>) -> Seq<char> {
    s.skip(leading_ws(s) as int)
}

/// `s` without the whitespace at either end.
pub open spec fn trim_spec(s: Seq<char>) -> Seq<char> {
    trim_start_spec(trim_end_spec(s))
}

/// The index at which the trailing whitespace of `cs[..end]` starts.
fn scan_end(cs: &Vec<char>, end: usize) -> (e: usize)
    requires
        end <= cs.len(),
    ensures
        e == trimmed_len(cs@.take(end as int)),
        e <= end,
{
    let mut e: usize = end;
    while e > 0 && is_whitespace(cs[e - 1])
        invariant
            e <= end <= cs.len(),
            trimmed_len(cs@.take(end as int)) == trimmed_len(cs@.take(e as int)),
        decreases e,
    {
        assert(cs@.take(e as int).drop_last() =~= cs@.take(e - 1));
        e -= 1;
    }
    e
}

/// The index at which the leading whitespace of `cs[..end]` stops.
fn scan_start(cs: &Vec<char>, end: usize) -> (b: usize)
    requires
        end <= cs.len(),
    ensures
        b == leading_ws(cs@.take(end as int)),
        b <= end,
{
    let ghost t = cs@.take(end as int);
    let mut b: usize = 0;
    assert(t.skip(0) =~= t);
    while b < end && is_whitespace(cs[b])
        invariant
            b <= end <= cs.len(),
            t == cs@.take(end as int),
            leading_ws(t) == b + leading_ws(t.skip(b as int)),
        decreases end - b,
    {
        assert(t.skip(b as int).skip(1) =~= t.skip(b + 1));
        b += 1;
    }
    b
}

/// `s` without the whitespace at its end.
pub fn trim_end(s: &str) -> (r: String)
    ensures
        r@ == trim_end_spec(s@),
{
    let cs = chars_of(s);
    assert(cs@.take(cs.len() as int) =~= cs@);
    let e = scan_end(&cs, cs.len());
    string_of(&cs, 0, e)
}

/// `s` without the whitespace at either end.
pub fn trim(s: &str) -> (r: String)
    ensures
        r@ == trim_spec(s@),
{
    let cs = chars_of(s);
    assert(cs@.take(cs.len() as int) =~= cs@);
    let e = scan_end(&cs, cs.len());
    let b = scan_start(&cs, e);
    assert(cs@.subrange(b as int, e as int) =~= cs@.take(e as int).skip(b as int));
    string_of(&cs, b, e)
}

/// The number of characters at the start of `s` that are not whitespace.
pub open spec fn word_len(s: Seq<char>) -> nat
    decreases s.len(),
{
    if s.len() > 0 && !char_is_whitespace(s[0]) {
        1 + word_len(s.skip(1))
    } else {
        0
    }
}

/// The words of `s`: its maximal runs of characters that are not whitespace,
/// in order.
pub open spec fn tokens_spec(s: Seq<char>) -> Seq<Seq<char>>
    decreases s.len(),
{
    if s.len() == 0 {
        Seq::empty()
    } else if char_is_whitespace(s[0]) {
        tokens_spec(s.skip(1))
    } else {
        let n = word_len(s) as int;
        if 0 < n < s.len() {
            seq![s.take(n)] + tokens_spec(s.skip(n))
        } else {
            seq![s]
        }
    }
}

/// A run of `k` characters without whitespace that ends `t` or is followed
/// by whitespace is the first word of `t`.
proof fn lemma_word_len(t: Seq<char>, k: nat)
    requires
        k <= t.len(),
        forall|m: int| 0 <= m < k ==> !char_is_whitespace(#[trigger] t[m]),
        k == t.len() || char_is_whitespace(t[k as int]),
    ensures
        word_len(t) == k,
    decreases k,
{
    if k > 0 {
        assert(!char_is_whitespace(t[0]));
        let u = t.skip(1);
        assert forall|m: int| 0 <= m < k - 1 implies !char_is_whitespace(#[trigger] u[m]) by {
            assert(u[m] == t[m + 1]);
        }
        lemma_word_len(u, (k - 1) as nat);
    }
}

/// The words of `s`, as `str::split_whitespace` yields them.
pub fn split_whitespace(s: &str) -> (out: Vec<String>)
    ensures
        out.deep_view() == tokens_spec(s@),
{
    let cs = chars_of(s);
    let n = cs.len();
    let mut out: Vec<String> = Vec::new();
    let mut i: usize = 0;
    assert(cs@.skip(0) =~= cs@);
    assert(out.deep_view() =~= Seq::<Seq<char>>::empty());
    while i < n
        invariant
            i <= n == cs.len(),
            cs@ == s@,
            tokens_spec(s@) == out.deep_view() + tokens_spec(cs@.skip(i as int)),
        decreases n - i,
    {
        let ghost rest = cs@.skip(i as int);
        if is_whitespace(cs[i]) {
            assert(rest.skip(1) =~= cs@.skip(i + 1));
            i += 1;
        } else {
            let mut j: usize = i + 1;
            while j < n && !is_whitespace(cs[j])
                invariant
                    i < j <= n == cs.len(),
                    forall|m: int| i <= m < j ==> !char_is_whitespace(#[trigger] cs@[m]),
                decreases n - j,
            {
                j += 1;
            }
            proof {
                assert forall|m: int| 0 <= m < j - i implies !char_is_whitespace(
                    #[trigger] rest[m],
                ) by {
                    assert(rest[m] == cs@[i + m]);
                }
                lemma_word_len(rest, (j - i) as nat);
                assert(rest.take(j - i) =~= cs@.subrange(i as int, j as int));
                assert(rest.skip(j - i) =~= cs@.skip(j as int));
                if j == n {
                    assert(rest.take(j - i) =~= rest);
                    assert(tokens_spec(cs@.skip(j as int)) =~= Seq::<Seq<char>>::empty());
                }
            }
            let word = string_of(&cs, i, j);
            let ghost before = out.deep_view();
            out.push(word);
            assert(out.deep_view() =~= before.push(word@));
            assert(tokens_spec(rest) =~= seq![word@] + tokens_spec(cs@.skip(j as int)));
            i = j;
        }
    }
    assert(tokens_spec(cs@.skip(i as int)) =~= Seq::<Seq<char>>::empty());
    out
}

/// The parts in a row, with `sep` between each two neighbours.
pub open spec fn join_spec(parts: Seq<Seq<char>>, sep: Seq<char>) -> Seq<char>
    decreases parts.len(),
{
    if parts.len() == 0 {
        Seq::empty()
    } else if parts.len() == 1 {
        parts[0]
    } else {
        join_spec(parts.drop_last(), sep) + sep + parts.last()
    }
}

/// The strings of `v` as string slices.
pub fn as_strs<'a>(v: &'a Vec<String>) -> (r: Vec<&'a str>)
    ensures
        r.deep_view() == v.deep_view(),
{
    let mut r: Vec<&'a str> = Vec::new();
    let mut i: usize = 0;
    while i < v.len()
        invariant
            i <= v.len(),
            r.len() == i,
            forall|k: int| 0 <= k < i ==> r@[k]@ == v@[k]@,
        decreases v.len() - i,
    {
        r.push(v[i].as_str());
        i += 1;
    }
    assert(r.deep_view() =~= v.deep_view());
    r
}

/// The parts in a row, with `sep` between each two neighbours.
pub fn join(parts: &[&str], sep: &str) -> (r: String)
    ensures
        r@ == join_spec(parts.deep_view(), sep@),
{
    let mut r = String::new();
    let mut i: usize = 0;
    let ghost all = parts.deep_view();
    assert(all.take(0) =~= Seq::<Seq<char>>::empty());
    while i < parts.len()
        invariant
            i <= parts.len(),
            all == parts.deep_view(),
            r@ == join_spec(all.take(i as int), sep@),
        decreases parts.len() - i,
    {
        let ghost done = all.take(i as int);
        let ghost next = all.take(i + 1);
        assert(next.drop_last() =~= done);
        assert(next.last() == parts@[i as int]@);
        if i > 0 {
            r.append(sep);
        }
        r.append(parts[i]);
        assert(r@ =~= join_spec(next, sep@));
        i += 1;
    }
    assert(all.take(i as int) =~= all);
    r
}

/// The number of characters at the start of `s` that differ from `sep`.
pub open spec fn field_len(s: Seq<char>, sep: char) -> nat
    decreases s.len(),
{
    if s.len() > 0 && s[0] != sep {
        1 + field_len(s.skip(1), sep)
    } else {
        0
    }
}

/// The fields of `s`: what stands before, between and after the occurrences
/// of `sep`. A string without `sep` is its own single field.
pub open spec fn split_spec(s: Seq<char>, sep: char) -> Seq<Seq<char>>
    decreases s.len(),
{
    let n = field_len(s, sep) as int;
    if 0 <= n < s.len() {
        seq![s.take(n)] + split_spec(s.skip(n + 1), sep)
    } else {
        seq![s]
    }
}

/// A run of `k` characters without `sep` that ends `t` or is followed by
/// `sep` is the first field of `t`.
pub proof fn lemma_field_len(t: Seq<char>, sep: char, k: nat)
    requires
        k <= t.len(),
        forall|m: int| 0 <= m < k ==> #[trigger] t[m] != sep,
        k == t.len() || t[k as int] == sep,
    ensures
        field_len(t, sep) == k,
    decreases k,
{
    if k > 0 {
        assert(t[0] != sep);
        let u = t.skip(1);
        assert forall|m: int| 0 <= m < k - 1 implies #[trigger] u[m] != sep by {
            assert(u[m] == t[m + 1]);
        }
        lemma_field_len(u, sep, (k - 1) as nat);
    }
}

/// The fields of `s` between the occurrences of `sep`, as `str::split` yields them.
pub fn split(s: &str, sep: char) -> (out: Vec<String>)
    ensures
        out.deep_view() == split_spec(s@, sep),
{
    let cs = chars_of(s);
    let n = cs.len();
    let mut out: Vec<String> = Vec::new();
    let mut i: usize = 0;
    assert(cs@.skip(0) =~= cs@);
    assert(out.deep_view() =~= Seq::<Seq<char>>::empty());
    loop
        invariant_except_break
            i <= n == cs.len(),
            cs@ == s@,
            split_spec(s@, sep) == out.deep_view() + split_spec(cs@.skip(i as int), sep),
        ensures
            out.deep_view() == split_spec(s@, sep),
        decreases n - i,
    {
        let ghost rest = cs@.skip(i as int);
        let mut j: usize = i;
        while j < n && cs[j] != sep
            invariant
                i <= j <= n == cs.len(),
                forall|m: int| i <= m < j ==> #[trigger] cs@[m] != sep,
            decreases n - j,
        {
            j += 1;
        }
        proof {
            assert forall|m: int| 0 <= m < j - i implies #[trigger] rest[m] != sep by {
                assert(rest[m] == cs@[i + m]);
            }
            lemma_field_len(rest, sep, (j - i) as nat);
            assert(rest.take(j - i) =~= cs@.subrange(i as int, j as int));
            if j == n {
                assert(rest.take(j - i) =~= rest);
            } else {
                assert(rest.skip(j - i + 1) =~= cs@.skip(j + 1));
            }
        }
        let field = string_of(&cs, i, j);
        let ghost before = out.deep_view();
        out.push(field);
        assert(out.deep_view() =~= before.push(field@));
        if j == n {
            assert(split_spec(rest, sep) =~= seq![field@]);
            break;
        }
        assert(split_spec(rest, sep) =~= seq![field@] + split_spec(cs@.skip(j + 1), sep));
        i = j + 1;
    }
    out
}

/// No character of `s` is `sep`.
pub open spec fn free_of(s: Seq<char>, sep: char) -> bool {
    forall|i: int| 0 <= i < s.len() ==> #[trigger] s[i] != sep
}

/// A string without `sep` is its own single field.
pub proof fn lemma_split_one(b: Seq<char>, sep: char)
    requires
        free_of(b, sep),
    ensures
        split_spec(b, sep) == seq![b],
{
    lemma_field_len(b, sep, b.len());
}

/// Splitting puts a field that was joined in front of a string back in front.
pub proof fn lemma_split_cons(a: Seq<char>, rest: Seq<char>, sep: char)
    requires
        free_of(a, sep),
    ensures
        split_spec(a + seq![sep] + rest, sep) == seq![a] + split_spec(rest, sep),
{
    let s = a + seq![sep] + rest;
    assert forall|m: int| 0 <= m < a.len() implies #[trigger] s[m] != sep by {
        assert(s[m] == a[m]);
    }
    assert(s[a.len() as int] == sep);
    lemma_field_len(s, sep, a.len());
    assert(s.take(a.len() as int) =~= a);
    assert(s.skip(a.len() as int + 1) =~= rest);
}

/// The first field of a string ends at the end of the string or before
/// an occurrence of `sep`, and holds none.
pub proof fn lemma_field_end(s: Seq<char>, sep: char)
    ensures
        field_len(s, sep) <= s.len(),
        field_len(s, sep) < s.len() ==> s[field_len(s, sep) as int] == sep,
        free_of(s.take(field_len(s, sep) as int), sep),
    decreases s.len(),
{
    if s.len() > 0 && s[0] != sep {
        let t = s.skip(1);
        lemma_field_end(t, sep);
        let n = field_len(s, sep) as int;
        if n < s.len() {
            assert(s[n] == t[n - 1]);
        }
        assert forall|i: int| 0 <= i < n implies #[trigger] s.take(n)[i] != sep by {
            if i > 0 {
                assert(s.take(n)[i] == t.take(n - 1)[i - 1]);
            }
        }
    }
}

/// A string always has a first field.
pub proof fn lemma_split_nonempty(s: Seq<char>, sep: char)
    ensures
        split_spec(s, sep).len() >= 1,
    decreases s.len(),
{
    let n = field_len(s, sep) as int;
    if 0 <= n < s.len() {
        lemma_split_nonempty(s.skip(n + 1), sep);
    }
}

/// A string of three fields is its fields in a row with `sep` between
/// them, and no field holds `sep`.
pub proof fn lemma_three_fields(s: Seq<char>, sep: char)
    requires
        split_spec(s, sep).len() == 3,
    ensures
        s == split_spec(s, sep)[0] + seq![sep] + split_spec(s, sep)[1] + seq![sep] + split_spec(
            s,
            sep,
        )[2],
        free_of(split_spec(s, sep)[0], sep),
        free_of(split_spec(s, sep)[1], sep),
        free_of(split_spec(s, sep)[2], sep),
{
    let parts = split_spec(s, sep);
    let n0 = field_len(s, sep) as int;
    lemma_field_end(s, sep);
    assert(n0 < s.len());
    let s1 = s.skip(n0 + 1);
    assert(parts =~= seq![s.take(n0)] + split_spec(s1, sep));
    assert(split_spec(s1, sep).len() == 2);
    let n1 = field_len(s1, sep) as int;
    lemma_field_end(s1, sep);
    assert(n1 < s1.len());
    let s2 = s1.skip(n1 + 1);
    assert(split_spec(s1, sep) =~= seq![s1.take(n1)] + split_spec(s2, sep));
    assert(split_spec(s2, sep).len() == 1);
    let n2 = field_len(s2, sep) as int;
    lemma_field_end(s2, sep);
    if n2 < s2.len() {
        lemma_split_nonempty(s2.skip(n2 + 1), sep);
    }
    assert(split_spec(s2, sep) =~= seq![s2]);
    assert(s2.take(n2) =~= s2);
    assert(parts[0] == s.take(n0));
    assert(parts[1] == s1.take(n1));
    assert(parts[2] == s2);
    assert(s1 =~= s1.take(n1) + seq![sep] + s2);
    assert(s =~= s.take(n0) + seq![sep] + s1);
    assert(s =~= parts[0] + seq![sep] + parts[1] + seq![sep] + parts[2]);
}

} // verus!
